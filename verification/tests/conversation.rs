//! Sessions, linking, compaction and the webhook channel.

use omnicede::channels::webhook::WebhookChannel;
use omnicede::channels::{ChannelHealth, OutboundMessage, OutboundTarget};
use omnicede::compaction::{extraction_messages, read_facts, Compaction, COMPACTION_SYSTEM_PROMPT};
use omnicede::db::queries;
use omnicede::db::{execute, open_memory};
use omnicede::error::CortexError;
use omnicede::json::Json;
use omnicede::linking::{
    adjudication_question, confirms, has_negation, holds_negation, is_affirmative, link_subject, record_contradiction,
    suspect, Candidate, LinkAction, LinkSeeds, Linking, Suspicion,
};
use omnicede::session;
use omnicede::text::{contains, decimal_text, is_white, starts_with, trim};
use omnicede::types::{EdgeKind, EdgeSeed, Message, Node, NodeKind, NodeSeed, Role, Scores};
use rusqlite::Connection;

fn scores() -> Scores {
    Scores { importance: 0.5f64.to_bits(), trust_score: 0.5f64.to_bits(), decay_rate: 0.01f64.to_bits() }
}

fn seed(id: &str, now: i64) -> NodeSeed {
    NodeSeed { id: id.to_string(), now, scores: scores() }
}

fn fact(id: &str, title: &str, body: &str) -> Node {
    Node::new(NodeKind::Fact, title, seed(id, 1)).with_body(body).with_embedding(vec![0, 0, 0, 0])
}

fn edge_seed(id: &str) -> EdgeSeed {
    EdgeSeed { id: id.to_string(), now: 9, weight: 1.0f64.to_bits() }
}

fn link_seeds(n: usize) -> LinkSeeds {
    LinkSeeds { related_id: format!("r{n}"), contradicts: edge_seed(&format!("c{n}")) }
}

fn candidate(id: &str, related: bool, close: bool) -> Candidate {
    Candidate { id: id.to_string(), similarity: 0.875f64.to_bits(), related, close }
}

fn two_facts(a: &str, b: &str) -> Connection {
    let mut conn = open_memory().unwrap();
    queries::insert_node(&mut conn, &fact("a", "A", a)).unwrap();
    queries::insert_node(&mut conn, &fact("b", "B", b)).unwrap();
    conn
}

fn is_finished(action: LinkAction) -> bool {
    matches!(action, LinkAction::Finished)
}

fn linking_of(conn: &mut Connection, candidates: Vec<Candidate>) -> Linking {
    let node = link_subject(conn, "a").unwrap().unwrap();
    Linking::new("a".to_string(), node, candidates)
}

#[test]
fn phase12_no_negation_means_no_contradiction_edge() {
    let mut conn = two_facts(
        "JWT tokens should be stored in httpOnly cookies for security.",
        "JWT tokens should be stored in httpOnly cookies to prevent XSS.",
    );
    let mut linking = linking_of(&mut conn, vec![candidate("b", true, true)]);
    assert!(matches!(linking.advance(&mut conn, false, link_seeds(1)), Ok(LinkAction::Next)));
    assert!(is_finished(linking.advance(&mut conn, false, link_seeds(2)).unwrap()));
    let has_contradiction = queries::edge_exists(&mut conn, "a", "b", EdgeKind::Contradicts).unwrap();
    assert!(!has_contradiction, "similar but non-contradictory nodes should NOT have Contradicts edge");
    assert!(queries::edge_exists(&mut conn, "a", "b", EdgeKind::RelatesTo).unwrap());
}

#[test]
fn phase12_negation_keyword_detected() {
    let a = fact("a", "Old policy", "Employees must use VPN for remote access.");
    let b = fact("b", "Updated policy", "Employees no longer need VPN for remote access. It is deprecated.");
    let text = "employees no longer need vpn for remote access. it is deprecated.";
    assert!(holds_negation(text), "should detect negation keywords in updated policy");
    assert!(has_negation(&a, &b));
    assert!(has_negation(&b, &a));
    assert!(!has_negation(&a, &a));
}

#[test]
fn phase12_mock_llm_adjudicates_contradiction() {
    let mut conn = two_facts(
        "The Earth is 93 million miles from the Sun.",
        "The Earth is NOT 93 million miles from the Sun. That is incorrect.",
    );
    let mut linking = linking_of(&mut conn, vec![candidate("b", false, true)]);
    match linking.advance(&mut conn, true, link_seeds(1)) {
        Ok(LinkAction::Ask(message)) => {
            assert_eq!(message.role, Role::User);
            assert_eq!(
                message.content,
                "Do the following two statements contradict each other? Answer only YES or NO.\n\n\
                 Statement A: The Earth is 93 million miles from the Sun.\n\
                 Statement B: The Earth is NOT 93 million miles from the Sun. That is incorrect."
            );
        }
        _ => panic!("the model should be asked"),
    }
    assert!(confirms(Some("YES")), "mock LLM should respond YES");
    linking.answer(&mut conn, Some("YES"), edge_seed("e")).unwrap();
    let exists = queries::edge_exists(&mut conn, "a", "b", EdgeKind::Contradicts).unwrap();
    assert!(exists, "contradiction edge should exist after LLM confirmation");
    assert!(!queries::edge_exists(&mut conn, "a", "b", EdgeKind::RelatesTo).unwrap());
    assert_eq!(queries::count_contradictions(&mut conn, "a").unwrap(), 1);
}

#[test]
fn phase12_mock_llm_rejects_false_positive() {
    let mut conn =
        two_facts("I cannot attend the Wednesday meeting.", "I cannot attend the Thursday meeting.");
    let mut linking = linking_of(&mut conn, vec![candidate("b", false, true)]);
    match linking.advance(&mut conn, true, link_seeds(1)) {
        Ok(LinkAction::Ask(message)) => assert_eq!(
            message.content,
            "Do the following two statements contradict each other? Answer only YES or NO.\n\n\
             Statement A: I cannot attend the Wednesday meeting.\n\
             Statement B: I cannot attend the Thursday meeting."
        ),
        _ => panic!("the model should be asked"),
    }
    assert!(!confirms(Some("NO")), "mock LLM should respond NO for false positive");
    linking.answer(&mut conn, Some("NO"), edge_seed("e")).unwrap();
    assert!(!queries::edge_exists(&mut conn, "a", "b", EdgeKind::Contradicts).unwrap());
    assert_eq!(queries::count_contradictions(&mut conn, "a").unwrap(), 0);
}

#[test]
fn without_a_model_negation_decides() {
    let mut conn = two_facts("Tokens expire.", "Tokens never expire.");
    let mut linking = linking_of(
        &mut conn,
        vec![candidate("a", true, true), candidate("b", true, true), candidate("b", true, true), candidate("gone", false, true)],
    );
    for n in 1..5 {
        assert!(matches!(linking.advance(&mut conn, false, link_seeds(n)), Ok(LinkAction::Next)));
    }
    assert!(is_finished(linking.advance(&mut conn, false, link_seeds(9)).unwrap()));
    let edges = queries::get_edges_from(&mut conn, "a").unwrap();
    assert_eq!(edges.len(), 2);
    assert_eq!((edges[0].id.as_str(), edges[0].kind), ("r2", EdgeKind::RelatesTo));
    assert_eq!(f64::from_bits(edges[0].weight), 0.875);
    assert_eq!((edges[1].id.as_str(), edges[1].kind), ("c2", EdgeKind::Contradicts));
    assert_eq!(f64::from_bits(edges[1].weight), 1.0);
    assert_eq!(queries::get_all_unresolved_contradictions(&mut conn).unwrap().len(), 1);
}

#[test]
fn a_model_that_fails_leaves_the_suspicion() {
    let mut conn = two_facts("Tokens expire.", "Tokens never expire.");
    let mut linking = linking_of(&mut conn, vec![candidate("b", false, true)]);
    assert!(matches!(linking.advance(&mut conn, true, link_seeds(1)), Ok(LinkAction::Ask(_))));
    linking.answer(&mut conn, None, edge_seed("e")).unwrap();
    assert!(queries::edge_exists(&mut conn, "a", "b", EdgeKind::Contradicts).unwrap());
    linking.answer(&mut conn, None, edge_seed("f")).unwrap();
    assert_eq!(queries::edge_count(&mut conn).unwrap(), 1);
    record_contradiction(&mut conn, "a", "b", edge_seed("g")).unwrap();
    assert_eq!(queries::edge_count(&mut conn).unwrap(), 1);
}

#[test]
fn unlike_nodes_are_left_alone() {
    let mut conn = two_facts("Tokens expire.", "Tokens never expire.");
    let mut linking = linking_of(&mut conn, vec![candidate("b", false, false)]);
    assert!(matches!(linking.advance(&mut conn, false, link_seeds(1)), Ok(LinkAction::Next)));
    assert_eq!(queries::edge_count(&mut conn).unwrap(), 0);
    let node = queries::get_node(&mut conn, "a").unwrap().unwrap();
    assert!(matches!(suspect(&mut conn, &node, &candidate("b", false, false), true), Suspicion::Clear));
    assert!(matches!(suspect(&mut conn, &node, &candidate("b", false, true), false), Suspicion::Contradiction));
}

#[test]
fn linking_needs_an_embedding_and_a_database() {
    let mut conn = open_memory().unwrap();
    assert!(link_subject(&mut conn, "a").unwrap().is_none());
    queries::insert_node(&mut conn, &Node::new(NodeKind::Fact, "A", seed("a", 1))).unwrap();
    assert!(link_subject(&mut conn, "a").unwrap().is_none());
    queries::insert_node(&mut conn, &fact("b", "B", "x")).unwrap();
    let node = link_subject(&mut conn, "b").unwrap().unwrap();
    execute(&mut conn, "DROP TABLE edges", vec![]).unwrap();
    let mut linking = Linking::new("b".to_string(), node, vec![candidate("a", true, true)]);
    assert!(linking.advance(&mut conn, false, link_seeds(1)).is_err());
}

#[test]
fn answers_count_by_how_they_start() {
    for yes in ["YES", " yes, they do", "Yes.\n", "\tyEs"] {
        assert!(confirms(Some(yes)));
    }
    for no in ["NO", "", "They do: YES", "Y E S"] {
        assert!(!confirms(Some(no)));
    }
    assert!(confirms(None));
    assert!(is_affirmative("YES!"));
    assert!(!is_affirmative(" YES"));
    let a = Node::new(NodeKind::Fact, "Title A", seed("a", 1));
    let question = adjudication_question(&a, &fact("b", "B", "body b"));
    assert!(question.content.ends_with("Statement A: Title A\nStatement B: body b"));
}

#[test]
fn negations_are_found_in_any_case() {
    let plain = fact("a", "A", "Sound.");
    for text in ["This is WRONG", "it isn't so", "She can't", "replaced by X", "NOT at all", "knot tied"] {
        assert!(has_negation(&plain, &fact("b", "B", text)));
    }
    for text in ["nothing", "cannon", "this and that"] {
        assert!(!has_negation(&plain, &fact("b", "B", text)));
    }
    let bodiless = Node::new(NodeKind::Fact, "never", seed("c", 1));
    assert!(!has_negation(&bodiless, &bodiless));
}

#[test]
fn sessions_are_one_per_user_and_channel() {
    let mut conn = open_memory().unwrap();
    let first = session::get_or_create(&mut conn, "ann", "telegram", seed("s1", 10)).unwrap();
    assert_eq!((first.node_id.as_str(), first.created_at, first.turn_count, first.last_active), ("s1", 10, 0, 10));
    session::record_turn(&mut conn, "s1", 15).unwrap();
    let again = session::get_or_create(&mut conn, "ann", "telegram", seed("s2", 20)).unwrap();
    assert_eq!((again.node_id.as_str(), again.created_at, again.turn_count, again.last_active), ("s1", 10, 1, 20));
    let other = session::get_or_create(&mut conn, "ann", "whatsapp", seed("s3", 30)).unwrap();
    assert_eq!(other.node_id, "s3");
    let bob = session::get_or_create(&mut conn, "bob", "telegram", seed("s4", 40)).unwrap();
    assert_eq!((bob.user_id.as_str(), bob.channel.as_str()), ("bob", "telegram"));
    let mine = session::list_user_sessions(&mut conn, "ann").unwrap();
    let ids: Vec<&str> = mine.iter().map(|s| s.node_id.as_str()).collect();
    assert_eq!(ids, vec!["s3", "s1"]);
    assert_eq!(session::stats(&mut conn).unwrap(), (3, 1));
    let node = queries::get_node(&mut conn, "s3").unwrap().unwrap();
    assert_eq!((node.kind, node.title.as_str()), (NodeKind::Session, "whatsapp session for ann"));
    assert_eq!(queries::node_count(&mut conn).unwrap(), 3);
    assert_eq!(
        queries::get_session_routing(&mut conn, "s4").unwrap(),
        Some(("bob".to_string(), "telegram".to_string()))
    );
    assert_eq!(queries::get_session_routing(&mut conn, "nope").unwrap(), None);
}

#[test]
fn sessions_fail_where_the_graph_does() {
    let mut conn = Connection::open_in_memory().unwrap();
    assert!(session::get_or_create(&mut conn, "ann", "api", seed("s", 1)).is_err());
    assert!(session::list_user_sessions(&mut conn, "ann").unwrap().is_empty());
    assert_eq!(session::stats(&mut conn).unwrap(), (0, 0));
}

#[test]
fn conversations_become_a_request() {
    let messages = vec![
        Message::system("be brief".to_string()),
        Message::user("hello".to_string()),
        Message { role: Role::Assistant, content: "hi".to_string() },
        Message { role: Role::Tool, content: "42".to_string() },
    ];
    let request = extraction_messages(&messages);
    assert_eq!(request.len(), 2);
    assert_eq!((request[0].role, request[0].content.as_str()), (Role::System, COMPACTION_SYSTEM_PROMPT));
    assert!(COMPACTION_SYSTEM_PROMPT.contains("as a JSON array of objects. Each object must have:\n- \"title\":"));
    assert_eq!(request[1].role, Role::User);
    assert_eq!(
        request[1].content,
        "Extract key facts from this conversation:\n\n\
         [system]: be brief\n\n[user]: hello\n\n[assistant]: hi\n\n[tool]: 42\n\n"
    );
    assert_eq!(extraction_messages(&[])[1].content, "Extract key facts from this conversation:\n\n");
}

#[test]
fn facts_are_read_from_a_reply() {
    let facts = read_facts(
        r#"[{"title": "T", "body": "B", "kind": "decision"}, {"kind": "pattern"}, {"kind": "goal"}, {"kind": "soul"}, 7]"#,
    );
    let read: Vec<(&str, &str, NodeKind)> =
        facts.iter().map(|f| (f.title.as_str(), f.body.as_str(), f.kind)).collect();
    assert_eq!(
        read,
        vec![
            ("T", "B", NodeKind::Decision),
            ("Extracted fact", "", NodeKind::Pattern),
            ("Extracted fact", "", NodeKind::Goal),
            ("Extracted fact", "", NodeKind::Fact),
            ("Extracted fact", "", NodeKind::Fact),
        ]
    );
    for nothing in ["", "no json", "{}", "null", "[1"] {
        assert!(read_facts(nothing).is_empty());
    }
}

#[test]
fn compaction_stores_facts_under_the_session() {
    let mut conn = open_memory().unwrap();
    queries::insert_node(&mut conn, &Node::session("S", seed("session", 1)).with_body("Notes.")).unwrap();
    let mut compaction =
        Compaction::new("session".to_string(), r#"[{"title": "One", "body": "1"}, {"title": "Two"}]"#);
    let mut n = 0;
    while compaction.next().is_some() {
        n += 1;
        let id = compaction
            .store(&mut conn, vec![0, 0, 0, 0], seed(&format!("f{n}"), 5), edge_seed(&format!("e{n}")))
            .unwrap();
        assert_eq!(id, Some(format!("f{n}")));
    }
    assert_eq!(compaction.store(&mut conn, vec![], seed("x", 5), edge_seed("x")).unwrap(), None);
    assert_eq!(compaction.finish(&mut conn).unwrap(), 2);
    let session = queries::get_node(&mut conn, "session").unwrap().unwrap();
    assert_eq!(session.body.as_deref(), Some("Notes.\n\n[Compacted. 2 facts extracted.]"));
    let edges = queries::get_edges_to(&mut conn, "session").unwrap();
    assert_eq!(edges.len(), 2);
    assert!(edges.iter().all(|e| e.kind == EdgeKind::DerivesFrom));
    let one = queries::get_node(&mut conn, "f1").unwrap().unwrap();
    assert_eq!((one.title.as_str(), one.body.as_deref()), ("One", Some("1")));
    assert_eq!(one.embedding, Some(vec![0, 0, 0, 0]));
}

#[test]
fn compaction_without_facts_leaves_the_session() {
    let mut conn = open_memory().unwrap();
    queries::insert_node(&mut conn, &Node::session("S", seed("session", 1))).unwrap();
    let compaction = Compaction::new("session".to_string(), "Sorry, no JSON today.");
    assert!(compaction.next().is_none());
    assert_eq!(compaction.finish(&mut conn).unwrap(), 0);
    assert_eq!(queries::get_node(&mut conn, "session").unwrap().unwrap().body, None);
}

#[test]
fn compaction_stops_at_a_failure() {
    let mut conn = open_memory().unwrap();
    queries::insert_node(&mut conn, &fact("taken", "T", "x")).unwrap();
    let mut compaction = Compaction::new("session".to_string(), r#"[{}]"#);
    assert!(compaction.store(&mut conn, vec![], seed("taken", 5), edge_seed("e")).is_err());
    assert!(compaction.next().is_some());
    assert_eq!(queries::edge_count(&mut conn).unwrap(), 0);
}

#[test]
fn webhook_posts_only_to_a_callback() {
    let mut channel = WebhookChannel::new();
    assert_eq!((channel.id(), channel.display_name(), channel.max_message_length()), ("webhook", "Generic Webhook", 100_000));
    match channel.health() {
        ChannelHealth::Disconnected { reason } => assert_eq!(reason, "not started"),
        ChannelHealth::Connected => panic!("not started"),
    }
    channel.start();
    assert!(matches!(channel.health(), ChannelHealth::Connected));
    channel.stop();
    assert!(matches!(channel.health(), ChannelHealth::Disconnected { .. }));
    let message = OutboundMessage { text: "hi".to_string(), metadata: Json::object().with("k", Json::Bool(true)) };
    let mut target =
        OutboundTarget { channel: "webhook".to_string(), external_id: "u1".to_string(), callback_url: None };
    assert!(channel.delivery(&target, &message).is_none());
    target.callback_url = Some("http://localhost/cb".to_string());
    let delivery = channel.delivery(&target, &message).unwrap();
    assert_eq!(delivery.url, "http://localhost/cb");
    assert_eq!(
        omnicede::json::render(&delivery.payload),
        r#"{"channel":"webhook","external_id":"u1","metadata":{"k":true},"text":"hi"}"#
    );
    assert!(channel.delivered(200, "200 OK", "").is_ok());
    assert!(channel.delivered(299, "299", "").is_ok());
    for status in [199u16, 300, 404] {
        match channel.delivered(status, "404 Not Found", "gone") {
            Err(CortexError::Channel(m)) => assert_eq!(m, "Webhook callback returned 404 Not Found: gone"),
            _ => panic!("no success"),
        }
    }
    assert_eq!(channel.failed("timeout").message(), "Webhook callback failed: timeout");
}

#[test]
fn texts_are_searched_and_counted() {
    assert!(contains("haystack", "st"));
    assert!(contains("x", ""));
    assert!(!contains("st", "haystack"));
    assert!(starts_with("YES!", "YES"));
    assert!(!starts_with("YE", "YES"));
    assert_eq!(decimal_text(0), "0");
    assert_eq!(decimal_text(1090), "1090");
    assert_eq!(decimal_text(usize::MAX), usize::MAX.to_string());
}

#[test]
fn white_space_is_trimmed_at_both_ends() {
    for c in '\u{0}'..=char::MAX {
        assert_eq!(is_white(c), c.is_whitespace(), "{}", c as u32);
    }
    for text in ["", " ", "a", " a b\t", "\u{a0}\u{3000}x\u{2028}\n", "\u{200b}x\u{200b}", "\r\n\u{85}"] {
        assert_eq!(trim(text), text.trim());
    }
}

#[test]
fn linking_again_adds_nothing() {
    let mut conn = two_facts("Tokens expire.", "Tokens never expire.");
    for round in 0..3 {
        let candidates = vec![candidate("a", true, true), candidate("b", true, true)];
        let mut linking = linking_of(&mut conn, candidates);
        for n in 0..2 {
            let seeds = link_seeds(10 * round + n);
            assert!(matches!(linking.advance(&mut conn, false, seeds), Ok(LinkAction::Next)));
        }
        assert!(is_finished(linking.advance(&mut conn, false, link_seeds(99)).unwrap()));
        assert_eq!(queries::edge_count(&mut conn).unwrap(), 2);
        assert_eq!(queries::get_all_unresolved_contradictions(&mut conn).unwrap().len(), 1);
        assert_eq!(queries::node_count(&mut conn).unwrap(), 2);
    }
}

#[test]
fn turns_are_counted_one_by_one() {
    let mut conn = open_memory().unwrap();
    session::get_or_create(&mut conn, "ann", "api", seed("s1", 1)).unwrap();
    session::get_or_create(&mut conn, "bob", "api", seed("s2", 2)).unwrap();
    for n in 0..3 {
        assert_eq!(session::stats(&mut conn).unwrap(), (2, n));
        session::record_turn(&mut conn, "s1", 10 + n).unwrap();
    }
    assert_eq!(session::stats(&mut conn).unwrap(), (2, 3));
    let resumed = session::get_or_create(&mut conn, "ann", "api", seed("s3", 50)).unwrap();
    assert_eq!((resumed.node_id.as_str(), resumed.turn_count, resumed.last_active), ("s1", 3, 50));
    assert_eq!(session::list_user_sessions(&mut conn, "bob").unwrap()[0].turn_count, 0);
    assert_eq!(session::stats(&mut conn).unwrap(), (2, 3));
}

#[test]
fn the_mark_of_a_compaction_is_added_to_the_body() {
    let mut conn = open_memory().unwrap();
    queries::insert_node(&mut conn, &fact("s", "Session", "so far")).unwrap();
    queries::insert_node(&mut conn, &Node::new(NodeKind::Session, "Other", seed("t", 1))).unwrap();
    for (session, expected) in [("s", "so far\n\n[Compacted. 1 facts extracted.]"), ("t", "\n\n[Compacted. 1 facts extracted.]")] {
        let mut compaction = Compaction::new(session.to_string(), r#"[{"title": "T", "body": "B"}]"#);
        let id = format!("f-{session}");
        compaction.store(&mut conn, vec![0, 0, 0, 0], seed(&id, 5), edge_seed(&format!("e-{session}"))).unwrap();
        assert_eq!(compaction.finish(&mut conn).unwrap(), 1);
        let marked = queries::get_node(&mut conn, session).unwrap().unwrap();
        assert_eq!(marked.body.as_deref(), Some(expected));
        assert_eq!(queries::collect_session_tree(&mut conn, session).unwrap(), vec![session.to_string(), id]);
    }
}

#[test]
fn turns_of_no_session_are_not_counted() {
    let mut conn = open_memory().unwrap();
    assert_eq!(session::stats(&mut conn).unwrap(), (0, 0));
    session::record_turn(&mut conn, "nobody", 1).unwrap();
    assert_eq!(session::stats(&mut conn).unwrap(), (0, 0));
}
