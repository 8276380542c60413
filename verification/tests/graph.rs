//! The graph in a database in memory: nodes, edges, contradictions, upkeep.

use omnicede::cortex::{ensure_identity, Config, SOUL_BODY};
use omnicede::db::queries;
use omnicede::db::{create_schema, execute, open_memory, SqlValue};
use omnicede::error::CortexError;
use omnicede::run_decay;
use omnicede::types::{Edge, EdgeKind, EdgeSeed, Node, NodeKind, NodeSeed, Scores};
use omnicede::upkeep::{consolidate, count_decay_steps};
use omnicede::CortexEmbedded;
use rusqlite::Connection;

fn bits(x: f64) -> u64 {
    x.to_bits()
}

fn float(bits: u64) -> f64 {
    f64::from_bits(bits)
}

fn scores() -> Scores {
    Scores { importance: bits(0.5), trust_score: bits(0.5), decay_rate: bits(0.01) }
}

fn seed(id: &str) -> NodeSeed {
    seed_at(id, 1_000_000)
}

fn seed_at(id: &str, now: i64) -> NodeSeed {
    NodeSeed { id: id.to_string(), now, scores: scores() }
}

fn node(id: &str, kind: NodeKind, title: &str) -> Node {
    Node::new(kind, title, seed(id))
}

fn edge(id: &str, src: &str, dst: &str, kind: EdgeKind) -> Edge {
    let seed = EdgeSeed { id: id.to_string(), now: 1_000_000, weight: bits(1.0) };
    Edge::new(src.to_string(), dst.to_string(), kind, seed)
}

fn decayed(importance: u64, rate: u64, steps: u64) -> u64 {
    bits((float(importance) * (1.0 - float(rate)).powf(steps as f64)).max(0.01))
}

fn adjusted(trust: u64, supports: i64, contradictions: i64) -> Option<u64> {
    let adjustment = supports as f64 * 0.05 - contradictions as f64 * 0.15;
    if adjustment.abs() > 0.001 {
        Some(bits((float(trust) + adjustment).clamp(0.05, 1.0)))
    } else {
        None
    }
}

fn now_secs() -> i64 {
    std::time::SystemTime::now().duration_since(std::time::UNIX_EPOCH).unwrap().as_secs() as i64
}

fn set_access(conn: &mut Connection, id: &str, at: i64) {
    execute(
        conn,
        "UPDATE nodes SET last_access = ?1, created_at = ?1 WHERE id = ?2",
        vec![SqlValue::Integer(at), SqlValue::Text(id.to_string())],
    )
    .unwrap();
}

#[test]
fn phase1_schema_created_and_soul_seeded() {
    let mut conn = open_memory().expect("open in-memory db");
    let count = queries::node_count(&mut conn).expect("count nodes");
    assert_eq!(count, 0, "fresh in-memory DB should have 0 nodes");

    let soul = node("soul-1", NodeKind::Soul, "Core identity")
        .with_body("I am an agent with persistent graph memory.")
        .with_importance(bits(1.0))
        .with_decay_rate(bits(0.0))
        .with_trust(bits(1.0));
    queries::insert_node(&mut conn, &soul).expect("insert soul");

    let retrieved = queries::get_node(&mut conn, "soul-1").expect("get soul").expect("soul exists");
    assert_eq!(retrieved.kind, NodeKind::Soul);
    assert_eq!(float(retrieved.decay_rate), 0.0);
    assert_eq!(float(retrieved.importance), 1.0);
}

#[test]
fn phase1_second_open_is_clean() {
    let _db1 = open_memory().expect("first open");
    let mut db2 = open_memory().expect("second open");
    let count = queries::node_count(&mut db2).expect("count");
    assert_eq!(count, 0);
}

#[test]
fn phase8_decay_reduces_importance() {
    let mut conn = open_memory().unwrap();
    let now = now_secs();
    let fact = Node::new(NodeKind::Fact, "Temporary fact", seed_at("n", now))
        .with_body("This will decay.")
        .with_importance(bits(0.8))
        .with_decay_rate(bits(0.1));
    queries::insert_node(&mut conn, &fact).unwrap();

    run_decay(&mut conn, now, 60, decayed).unwrap();

    let updated = queries::get_node(&mut conn, "n").unwrap().unwrap();
    let importance = float(updated.importance);
    assert!(importance < 0.8, "importance should decrease after decay: got {}", importance);
    assert!((importance - 0.72).abs() < 0.01, "importance should be 0.8 * 0.9 = 0.72, got {}", importance);
}

#[test]
fn phase9_consolidation_adjusts_trust() {
    let mut conn = open_memory().unwrap();
    let a = node("a", NodeKind::Fact, "Fact A").with_body("A is true.").with_trust(bits(0.8));
    queries::insert_node(&mut conn, &a).unwrap();
    let b = node("b", NodeKind::Fact, "Fact B").with_body("B contradicts A.").with_trust(bits(0.8));
    queries::insert_node(&mut conn, &b).unwrap();
    queries::insert_edge(&mut conn, &edge("e1", "a", "b", EdgeKind::Contradicts)).unwrap();
    queries::insert_contradiction(&mut conn, "a", "b", 5).unwrap();
    let supporter = node("s", NodeKind::Fact, "Supporter").with_body("I support A.").with_trust(bits(0.9));
    queries::insert_node(&mut conn, &supporter).unwrap();
    queries::insert_edge(&mut conn, &edge("e2", "s", "a", EdgeKind::Supports)).unwrap();

    let report = consolidate(&mut conn, adjusted).unwrap();

    let a_after = queries::get_node(&mut conn, "a").unwrap().unwrap();
    let trust = float(a_after.trust_score);
    assert!((trust - 0.70).abs() < 0.02, "node_a trust should decrease due to contradiction, got {}", trust);
    assert_eq!(report.nodes_updated, 3);
    assert_eq!(report.trust_adjustments, 2);
    assert_eq!(report.contradictions_found, 1);
}

#[test]
fn phase10_background_task_nodes_created() {
    let mut conn = open_memory().unwrap();
    let session = Node::session("Parent task", seed("session"));
    queries::insert_node(&mut conn, &session).unwrap();
    let task = node("task", NodeKind::BackgroundTask, "Research background task")
        .with_body("Status: running\n\nResearch JWT token best practices");
    queries::insert_node(&mut conn, &task).unwrap();
    queries::insert_edge(&mut conn, &edge("e1", "task", "session", EdgeKind::PartOf)).unwrap();
    let fact = node("fact", NodeKind::Fact, "Task result: research JWT")
        .with_body("Status: completed\n\nJWT best practices summary...");
    queries::insert_node(&mut conn, &fact).unwrap();
    queries::insert_edge(&mut conn, &edge("e2", "fact", "task", EdgeKind::DerivesFrom)).unwrap();

    let tasks = queries::get_nodes_by_kind(&mut conn, NodeKind::BackgroundTask).unwrap();
    assert_eq!(tasks.len(), 1);
    let edges = queries::get_edges_to(&mut conn, "session").unwrap();
    assert!(!edges.is_empty(), "session should have incoming edges");
}

#[test]
fn node_builder_pattern_works() {
    let node = node("n", NodeKind::Fact, "Test")
        .with_body("Body text")
        .with_importance(bits(0.9))
        .with_trust(bits(0.7))
        .with_decay_rate(bits(0.02));
    assert_eq!(node.title, "Test");
    assert_eq!(node.body.as_deref(), Some("Body text"));
    assert!((float(node.importance) - 0.9).abs() < f64::EPSILON);
    assert!((float(node.trust_score) - 0.7).abs() < f64::EPSILON);
    assert!((float(node.decay_rate) - 0.02).abs() < f64::EPSILON);
}

#[test]
fn stats_reflect_node_and_edge_counts() {
    let config = Config {
        embedding_cache_size: 10,
        hnsw_rebuild_threshold: 3,
        auto_link_candidates: 5,
        decay_interval_secs: 60,
    };
    let mut conn = open_memory().unwrap();
    queries::insert_node(&mut conn, &node("n1", NodeKind::Fact, "A")).unwrap();
    queries::insert_node(&mut conn, &node("n2", NodeKind::Entity, "B")).unwrap();
    queries::insert_edge(&mut conn, &edge("e", "n1", "n2", EdgeKind::RelatesTo)).unwrap();
    assert_eq!(queries::node_count(&mut conn).unwrap(), 2);
    assert_eq!(queries::edge_count(&mut conn).unwrap(), 1);
    let by_kind = queries::node_count_by_kind(&mut conn).unwrap();
    assert_eq!(*by_kind.get("fact").unwrap_or(&0), 1);
    assert_eq!(*by_kind.get("entity").unwrap_or(&0), 1);

    let mut cortex = CortexEmbedded::open_with_config(":memory:", config, seed("soul")).unwrap();
    cortex.remember(node("n1", NodeKind::Fact, "A"), vec![0, 0, 0, 0]).unwrap();
    let id = cortex
        .link(
            "n1".to_string(),
            "soul".to_string(),
            EdgeKind::RelatesTo,
            EdgeSeed { id: "e".to_string(), now: 1, weight: bits(1.0) },
        )
        .unwrap();
    assert_eq!(id, "e");
    let (nodes, edges, by_kind) = cortex.stats().unwrap();
    assert_eq!((nodes, edges), (2, 1));
    assert_eq!(by_kind.get("soul"), Some(&1));
    assert_eq!(by_kind.get("fact"), Some(&1));
    assert_eq!(by_kind.get("entity"), None);
    let mut entries = by_kind.entries().clone();
    entries.sort();
    assert_eq!(entries, vec![("fact".to_string(), 1), ("soul".to_string(), 1)]);
}

#[test]
fn phase11_decay_proportional_to_elapsed_time() {
    let mut conn = open_memory().unwrap();
    let now = now_secs();
    let old = Node::new(NodeKind::Fact, "Old knowledge", seed_at("n", now))
        .with_body("Something learned a while ago.")
        .with_importance(bits(0.8))
        .with_decay_rate(bits(0.001));
    queries::insert_node(&mut conn, &old).unwrap();
    set_access(&mut conn, "n", now - 25 * 3600);

    run_decay(&mut conn, now, 60, decayed).unwrap();

    let importance = float(queries::get_node(&mut conn, "n").unwrap().unwrap().importance);
    assert!(importance < 0.5, "proportional decay should compound over elapsed time: got {}", importance);
    let expected = 0.8 * (0.999_f64).powf(1500.0);
    assert!((importance - expected).abs() < 0.02, "importance should be ~{:.4}, got {:.4}", expected, importance);
    assert_eq!(count_decay_steps(now, now - 25 * 3600, 60), 1500);
}

#[test]
fn phase11_decay_clamps_to_floor() {
    let mut conn = open_memory().unwrap();
    let now = now_secs();
    let old = Node::new(NodeKind::Fact, "Very old fact", seed_at("n", now))
        .with_body("Ancient knowledge.")
        .with_importance(bits(0.5))
        .with_decay_rate(bits(0.1));
    queries::insert_node(&mut conn, &old).unwrap();
    set_access(&mut conn, "n", now - 48 * 3600);

    run_decay(&mut conn, now, 60, decayed).unwrap();

    let importance = float(queries::get_node(&mut conn, "n").unwrap().unwrap().importance);
    assert!((importance - 0.01).abs() < f64::EPSILON, "importance should clamp to 0.01 floor, got {}", importance);
}

#[test]
fn decay_leaves_what_was_accessed_today() {
    let mut conn = open_memory().unwrap();
    let fresh = node("n", NodeKind::Fact, "Fresh").with_importance(bits(0.8)).with_decay_rate(bits(0.1));
    queries::insert_node(&mut conn, &fresh).unwrap();
    queries::touch_nodes(&mut conn, &["n".to_string()], 1_000_000).unwrap();
    run_decay(&mut conn, 1_000_000 + 86_399, 60, decayed).unwrap();
    assert_eq!(float(queries::get_node(&mut conn, "n").unwrap().unwrap().importance), 0.8);
    run_decay(&mut conn, 1_000_000 + 86_401, 86_401, decayed).unwrap();
    let importance = float(queries::get_node(&mut conn, "n").unwrap().unwrap().importance);
    assert!((importance - 0.72).abs() < 1e-12);
}

#[test]
fn decay_steps_are_whole_intervals_and_at_least_one() {
    assert_eq!(count_decay_steps(0, 0, 60), 1);
    assert_eq!(count_decay_steps(59, 0, 60), 1);
    assert_eq!(count_decay_steps(119, 0, 60), 1);
    assert_eq!(count_decay_steps(120, 0, 60), 2);
    assert_eq!(count_decay_steps(0, 500, 60), 1);
    assert_eq!(count_decay_steps(7, 0, 0), 7);
    assert_eq!(count_decay_steps(i64::MAX, i64::MIN, 1), u64::MAX);
}

#[test]
fn consolidation_resolves_superseded_contradictions() {
    let mut conn = open_memory().unwrap();
    for id in ["a", "b", "c"] {
        queries::insert_node(&mut conn, &node(id, NodeKind::Fact, id)).unwrap();
    }
    queries::insert_contradiction(&mut conn, "a", "b", 5).unwrap();
    queries::insert_contradiction(&mut conn, "a", "c", 6).unwrap();
    queries::insert_edge(&mut conn, &edge("e", "b", "a", EdgeKind::Supersedes)).unwrap();
    let report = consolidate(&mut conn, |_, _, _| None).unwrap();
    assert_eq!(report.nodes_updated, 3);
    assert_eq!(report.trust_adjustments, 0);
    assert_eq!(report.contradictions_found, 1);
    let left = queries::get_all_unresolved_contradictions(&mut conn).unwrap();
    assert_eq!(left.len(), 1);
    assert_eq!((left[0].node_a.as_str(), left[0].node_b.as_str(), left[0].detected_at), ("a", "c", 6));
    assert!(!left[0].resolved);
}

#[test]
fn nodes_read_back_as_they_were_stored() {
    let mut conn = open_memory().unwrap();
    let stored = node("n", NodeKind::ToolCall, "Call").with_body("Body").with_embedding(vec![1, 2, 3, 4, 5, 6, 7, 8]);
    queries::insert_node(&mut conn, &stored).unwrap();
    let read = queries::get_node(&mut conn, "n").unwrap().unwrap();
    assert_eq!(read.id, "n");
    assert_eq!(read.kind, NodeKind::ToolCall);
    assert_eq!(read.title, "Call");
    assert_eq!(read.body.as_deref(), Some("Body"));
    assert_eq!(read.importance, bits(0.5));
    assert_eq!(read.trust_score, bits(0.5));
    assert_eq!(read.decay_rate, bits(0.01));
    assert_eq!(read.access_count, 0);
    assert_eq!(read.created_at, 1_000_000);
    assert_eq!(read.last_access, None);
    assert_eq!(read.embedding, Some(vec![1, 2, 3, 4, 5, 6, 7, 8]));
    assert!(queries::get_node(&mut conn, "other").unwrap().is_none());

    let light = queries::get_all_nodes_light(&mut conn).unwrap();
    assert_eq!(light.len(), 1);
    assert_eq!(light[0].embedding, None);
    assert_eq!(light[0].title, "Call");
    let embeddings = queries::get_all_embeddings(&mut conn).unwrap();
    assert_eq!(embeddings, vec![("n".to_string(), vec![1, 2, 3, 4, 5, 6, 7, 8])]);
}

#[test]
fn a_broken_embedding_reads_as_empty() {
    let mut conn = open_memory().unwrap();
    queries::insert_node(&mut conn, &node("n", NodeKind::Fact, "A").with_embedding(vec![1, 2, 3])).unwrap();
    let read = queries::get_node(&mut conn, "n").unwrap().unwrap();
    assert_eq!(read.embedding, Some(vec![]));
}

#[test]
fn unknown_kinds_read_as_facts_and_relations() {
    let mut conn = open_memory().unwrap();
    queries::insert_node(&mut conn, &node("n", NodeKind::Goal, "A")).unwrap();
    queries::insert_edge(&mut conn, &edge("e", "n", "m", EdgeKind::Supports)).unwrap();
    execute(&mut conn, "UPDATE nodes SET kind = 'mystery'", vec![]).unwrap();
    execute(&mut conn, "UPDATE edges SET kind = 'mystery'", vec![]).unwrap();
    assert_eq!(queries::get_node(&mut conn, "n").unwrap().unwrap().kind, NodeKind::Fact);
    assert_eq!(queries::get_all_edges(&mut conn).unwrap()[0].kind, EdgeKind::RelatesTo);
}

#[test]
fn a_column_of_another_type_is_reported() {
    let mut conn = open_memory().unwrap();
    queries::insert_node(&mut conn, &node("n", NodeKind::Goal, "A")).unwrap();
    execute(&mut conn, "UPDATE nodes SET body = x'00'", vec![]).unwrap();
    match queries::get_node(&mut conn, "n") {
        Err(e) => assert_eq!(e.message(), "Invalid column type Blob at index: 3, name: body"),
        Ok(_) => panic!("the body is no text"),
    }
    let missing = omnicede::db::rows::read_text(&vec![], 2, "title").unwrap_err();
    assert_eq!(missing.message(), "Invalid column index: 2");
    assert_eq!(CortexError::NoRow.message(), "Query returned no rows");
}

#[test]
fn integers_read_as_real_numbers() {
    let mut conn = open_memory().unwrap();
    let rows = omnicede::db::query(&mut conn, "SELECT 7", vec![]).unwrap();
    let row = rows.into_iter().next().unwrap().unwrap();
    assert_eq!(row, vec![SqlValue::Integer(7)]);
    assert_eq!(omnicede::db::rows::read_real(&row, 0, "7").unwrap(), bits(7.0));
}

#[test]
fn a_refused_statement_is_reported() {
    let mut conn = open_memory().unwrap();
    queries::insert_node(&mut conn, &node("n", NodeKind::Fact, "A")).unwrap();
    match queries::insert_node(&mut conn, &node("n", NodeKind::Fact, "B")) {
        Err(CortexError::Sqlite(e)) => {
            assert!(CortexError::Sqlite(e).message().contains("UNIQUE"));
        }
        _ => panic!("the ID is taken"),
    }
    match execute(&mut conn, "NONSENSE", vec![]) {
        Err(CortexError::Sqlite(_)) => {}
        _ => panic!("no statement"),
    }
    let mut empty = Connection::open_in_memory().unwrap();
    assert!(queries::touch_nodes(&mut empty, &[], 5).is_err());
    assert!(queries::get_node(&mut empty, "n").is_err());
}

#[test]
fn upsert_replaces_what_was_stored() {
    let mut conn = open_memory().unwrap();
    queries::upsert_node(&mut conn, &node("n", NodeKind::Fact, "First").with_body("one")).unwrap();
    queries::touch_nodes(&mut conn, &["n".to_string()], 77).unwrap();
    queries::upsert_node(&mut conn, &node("n", NodeKind::Goal, "Second").with_body("two")).unwrap();
    let read = queries::get_node(&mut conn, "n").unwrap().unwrap();
    assert_eq!((read.title.as_str(), read.body.as_deref(), read.kind), ("Second", Some("two"), NodeKind::Goal));
    assert_eq!((read.access_count, read.last_access), (1, Some(77)));
    assert_eq!(queries::node_count(&mut conn).unwrap(), 1);
}

#[test]
fn update_node_fields_sets_only_what_is_given() {
    let mut conn = open_memory().unwrap();
    queries::insert_node(&mut conn, &node("n", NodeKind::Fact, "Title").with_body("body")).unwrap();
    assert!(!queries::update_node_fields(&mut conn, "n", None, None, None, None, None).unwrap());
    assert!(!queries::update_node_fields(&mut conn, "gone", None, Some("x"), None, None, None).unwrap());
    assert!(queries::update_node_fields(&mut conn, "n", None, Some("New"), None, None, Some(bits(0.9))).unwrap());
    let read = queries::get_node(&mut conn, "n").unwrap().unwrap();
    assert_eq!((read.title.as_str(), read.body.as_deref(), read.kind), ("New", Some("body"), NodeKind::Fact));
    assert_eq!((float(read.trust_score), float(read.importance)), (0.9, 0.5));
    assert!(queries::update_node_fields(
        &mut conn,
        "n",
        Some(NodeKind::Goal),
        Some("T"),
        Some("B"),
        Some(bits(0.25)),
        Some(bits(0.75)),
    )
    .unwrap());
    let read = queries::get_node(&mut conn, "n").unwrap().unwrap();
    assert_eq!((read.title.as_str(), read.body.as_deref(), read.kind), ("T", Some("B"), NodeKind::Goal));
    assert_eq!((float(read.importance), float(read.trust_score)), (0.25, 0.75));
}

#[test]
fn deleting_a_node_takes_what_refers_to_it() {
    let mut conn = open_memory().unwrap();
    for id in ["a", "b", "c"] {
        queries::insert_node(&mut conn, &node(id, NodeKind::Fact, id)).unwrap();
    }
    queries::insert_edge(&mut conn, &edge("e1", "a", "b", EdgeKind::RelatesTo)).unwrap();
    queries::insert_edge(&mut conn, &edge("e2", "b", "c", EdgeKind::RelatesTo)).unwrap();
    queries::insert_contradiction(&mut conn, "a", "b", 1).unwrap();
    assert!(queries::delete_node(&mut conn, "a").unwrap());
    assert!(!queries::delete_node(&mut conn, "a").unwrap());
    assert_eq!(queries::edge_count(&mut conn).unwrap(), 1);
    assert!(queries::get_all_unresolved_contradictions(&mut conn).unwrap().is_empty());
    let ids = vec!["b".to_string(), "gone".to_string(), "c".to_string()];
    assert_eq!(queries::delete_nodes_bulk(&mut conn, &ids).unwrap(), 2);
    assert_eq!(queries::node_count(&mut conn).unwrap(), 0);
    assert_eq!(queries::edge_count(&mut conn).unwrap(), 0);
    assert_eq!(queries::delete_nodes_bulk(&mut conn, &[]).unwrap(), 0);
}

#[test]
fn session_tree_is_everything_under_the_session() {
    let mut conn = open_memory().unwrap();
    queries::insert_edge(&mut conn, &edge("e1", "loop", "session", EdgeKind::PartOf)).unwrap();
    queries::insert_edge(&mut conn, &edge("e2", "call", "loop", EdgeKind::PartOf)).unwrap();
    queries::insert_edge(&mut conn, &edge("e3", "fact", "call", EdgeKind::DerivesFrom)).unwrap();
    queries::insert_edge(&mut conn, &edge("e4", "fact", "loop", EdgeKind::DerivesFrom)).unwrap();
    queries::insert_edge(&mut conn, &edge("e5", "session", "fact", EdgeKind::PartOf)).unwrap();
    queries::insert_edge(&mut conn, &edge("e6", "other", "session", EdgeKind::RelatesTo)).unwrap();
    let tree = queries::collect_session_tree(&mut conn, "session").unwrap();
    assert_eq!(tree[0], "session");
    let mut sorted = tree.clone();
    sorted.sort();
    assert_eq!(sorted, vec!["call", "fact", "loop", "session"]);
    assert_eq!(queries::collect_session_tree(&mut conn, "lonely").unwrap(), vec!["lonely"]);
}

#[test]
fn search_takes_wildcards_as_they_stand() {
    let mut conn = open_memory().unwrap();
    queries::insert_node(&mut conn, &node("p", NodeKind::Fact, "100% sure").with_importance(bits(0.9))).unwrap();
    queries::insert_node(&mut conn, &node("q", NodeKind::Fact, "100 times sure")).unwrap();
    queries::insert_node(&mut conn, &node("r", NodeKind::Fact, "other").with_body("snake_case")).unwrap();
    queries::insert_node(&mut conn, &node("s", NodeKind::Fact, "snakeXcase")).unwrap();
    let ids = |found: Vec<Node>| found.into_iter().map(|n| n.id).collect::<Vec<_>>();
    assert_eq!(ids(queries::search_nodes_text(&mut conn, "100%", 10).unwrap()), vec!["p"]);
    assert_eq!(ids(queries::search_nodes_text(&mut conn, "E_C", 10).unwrap()), vec!["r"]);
    assert_eq!(ids(queries::search_nodes_text(&mut conn, "SURE", 10).unwrap()), vec!["p", "q"]);
    assert_eq!(ids(queries::search_nodes_text(&mut conn, "sure", 1).unwrap()), vec!["p"]);
    assert_eq!(queries::search_nodes_text(&mut conn, "", 10).unwrap().len(), 4);
}

#[test]
fn lists_and_lookups() {
    let mut conn = open_memory().unwrap();
    queries::insert_node(&mut conn, &Node::new(NodeKind::Fact, "A", seed_at("ab1", 1))).unwrap();
    queries::insert_node(&mut conn, &Node::new(NodeKind::Goal, "B", seed_at("ab2", 2))).unwrap();
    queries::insert_node(&mut conn, &Node::new(NodeKind::Fact, "C", seed_at("cd", 3))).unwrap();
    let ids = |found: Vec<Node>| found.into_iter().map(|n| n.id).collect::<Vec<_>>();
    assert_eq!(ids(queries::list_nodes_filtered(&mut conn, None, 2).unwrap()), vec!["cd", "ab2"]);
    assert_eq!(ids(queries::list_nodes_filtered(&mut conn, Some(NodeKind::Fact), 9).unwrap()), vec!["cd", "ab1"]);
    let mut by_prefix = queries::find_nodes_by_prefix(&mut conn, "ab").unwrap();
    by_prefix.sort();
    assert_eq!(by_prefix, vec!["ab1", "ab2"]);
    assert!(queries::get_nodes_by_ids(&mut conn, &[]).unwrap().is_empty());
    let wanted = vec!["cd".to_string(), "ab1".to_string(), "gone".to_string()];
    let mut found = ids(queries::get_nodes_by_ids(&mut conn, &wanted).unwrap());
    found.sort();
    assert_eq!(found, vec!["ab1", "cd"]);
    queries::update_node_importance(&mut conn, "cd", bits(0.125)).unwrap();
    queries::update_node_trust(&mut conn, "cd", bits(0.25)).unwrap();
    let read = queries::get_node(&mut conn, "cd").unwrap().unwrap();
    assert_eq!((float(read.importance), float(read.trust_score)), (0.125, 0.25));
}

#[test]
fn many_ids_get_numbered_placeholders() {
    let mut conn = open_memory().unwrap();
    let mut ids: Vec<String> = Vec::new();
    for i in 0..120 {
        let id = format!("n{i}");
        queries::insert_node(&mut conn, &node(&id, NodeKind::Fact, "x")).unwrap();
        ids.push(id);
    }
    assert_eq!(queries::get_nodes_by_ids(&mut conn, &ids).unwrap().len(), 120);
    assert_eq!(queries::get_nodes_by_ids(&mut conn, &ids[..11]).unwrap().len(), 11);
}

#[test]
fn edges_and_neighbours() {
    let mut conn = open_memory().unwrap();
    queries::insert_edge(&mut conn, &edge("e1", "a", "b", EdgeKind::Supports).with_weight(bits(0.25))).unwrap();
    queries::insert_edge(&mut conn, &edge("e2", "c", "a", EdgeKind::PartOf)).unwrap();
    queries::insert_edge(&mut conn, &edge("e1", "x", "y", EdgeKind::PartOf)).unwrap();
    let from = queries::get_edges_from(&mut conn, "a").unwrap();
    assert_eq!(from.len(), 1);
    assert_eq!((from[0].id.as_str(), from[0].src.as_str(), from[0].dst.as_str()), ("e1", "a", "b"));
    assert_eq!((from[0].kind, float(from[0].weight), from[0].created_at), (EdgeKind::Supports, 0.25, 1_000_000));
    assert_eq!(from[0].metadata, None);
    assert_eq!(queries::get_edges_to(&mut conn, "a").unwrap().len(), 1);
    assert_eq!(queries::edge_count(&mut conn).unwrap(), 2);
    assert!(queries::edge_exists(&mut conn, "a", "b", EdgeKind::Supports).unwrap());
    assert!(!queries::edge_exists(&mut conn, "a", "b", EdgeKind::PartOf).unwrap());
    assert!(!queries::edge_exists(&mut conn, "b", "a", EdgeKind::Supports).unwrap());
    let mut near = queries::get_neighbors(&mut conn, "a").unwrap();
    near.sort_by(|a, b| a.0.cmp(&b.0));
    assert_eq!(near, vec![("b".to_string(), EdgeKind::Supports), ("c".to_string(), EdgeKind::PartOf)]);
}

#[test]
fn contradictions_are_kept_per_pair() {
    let mut conn = open_memory().unwrap();
    queries::insert_contradiction(&mut conn, "a", "b", 1).unwrap();
    queries::insert_contradiction(&mut conn, "a", "b", 2).unwrap();
    queries::insert_contradiction(&mut conn, "c", "d", 3).unwrap();
    assert!(queries::get_unresolved_contradictions(&mut conn, &[]).unwrap().is_empty());
    let found = queries::get_unresolved_contradictions(&mut conn, &["b".to_string(), "z".to_string()]).unwrap();
    assert_eq!(found.len(), 1);
    assert_eq!(found[0].detected_at, 1);
    assert_eq!(queries::count_contradictions(&mut conn, "b").unwrap(), 1);
    queries::resolve_contradiction(&mut conn, "a", "b").unwrap();
    assert_eq!(queries::count_contradictions(&mut conn, "b").unwrap(), 0);
    assert_eq!(queries::get_all_unresolved_contradictions(&mut conn).unwrap().len(), 1);
}

#[test]
fn support_counts_only_trusted_sources() {
    let mut conn = open_memory().unwrap();
    queries::insert_node(&mut conn, &node("s1", NodeKind::Fact, "S").with_trust(bits(0.9))).unwrap();
    queries::insert_node(&mut conn, &node("s2", NodeKind::Fact, "S").with_trust(bits(0.7))).unwrap();
    queries::insert_edge(&mut conn, &edge("e1", "s1", "a", EdgeKind::Supports)).unwrap();
    queries::insert_edge(&mut conn, &edge("e2", "s2", "a", EdgeKind::Supports)).unwrap();
    assert_eq!(queries::count_supporting_edges(&mut conn, "a", omnicede::upkeep::TRUSTED).unwrap(), 1);
    assert_eq!(float(omnicede::upkeep::TRUSTED), 0.7);
}

#[test]
fn meta_keeps_the_last_value() {
    let mut conn = open_memory().unwrap();
    assert_eq!(queries::get_meta(&mut conn, "k").unwrap(), None);
    queries::set_meta(&mut conn, "k", "one").unwrap();
    queries::set_meta(&mut conn, "k", "two").unwrap();
    assert_eq!(queries::get_meta(&mut conn, "k").unwrap().as_deref(), Some("two"));
}

#[test]
fn recent_and_pending_nodes_of_a_session() {
    let mut conn = open_memory().unwrap();
    let mut put = |id: &str, kind: NodeKind, at: i64| {
        queries::insert_node(&mut conn, &Node::new(kind, id, seed_at(id, at))).unwrap();
        queries::insert_edge(&mut conn, &edge(&format!("e-{id}"), id, "session", EdgeKind::PartOf)).unwrap();
    };
    put("in1", NodeKind::UserInput, 1);
    put("fact", NodeKind::Fact, 2);
    put("goal", NodeKind::Goal, 3);
    put("note2", NodeKind::Notification, 5);
    put("note1", NodeKind::Notification, 4);
    let ids = |found: Vec<Node>| found.into_iter().map(|n| n.id).collect::<Vec<_>>();
    assert_eq!(ids(queries::get_recent_session_nodes(&mut conn, "session", 9).unwrap()), vec!["fact", "in1"]);
    assert_eq!(ids(queries::get_recent_session_nodes(&mut conn, "session", 1).unwrap()), vec!["fact"]);
    assert_eq!(ids(queries::get_pending_notification_nodes(&mut conn, "session").unwrap()), vec!["note1", "note2"]);
    queries::touch_nodes(&mut conn, &["note1".to_string()], 9).unwrap();
    assert_eq!(ids(queries::get_pending_notification_nodes(&mut conn, "session").unwrap()), vec!["note2"]);
}

#[test]
fn identity_is_seeded_once() {
    let mut conn = open_memory().unwrap();
    ensure_identity(&mut conn, seed("soul")).unwrap();
    ensure_identity(&mut conn, seed("soul-2")).unwrap();
    let souls = queries::get_nodes_by_kind(&mut conn, NodeKind::Soul).unwrap();
    assert_eq!(souls.len(), 1);
    assert_eq!(souls[0].id, "soul");
    assert_eq!(souls[0].title, "Core identity");
    assert_eq!(souls[0].body.as_deref(), Some(SOUL_BODY));
    assert!(SOUL_BODY.starts_with("You are an agent with a persistent memory graph. Your identity,"));
    assert!(SOUL_BODY.contains("nodes in this graph \u{2014} use your recall tool to look them up."));
    assert_eq!(
        (float(souls[0].importance), float(souls[0].trust_score), float(souls[0].decay_rate)),
        (1.0, 1.0, 0.0)
    );
}

#[test]
fn cortex_remembers_with_an_embedding() {
    let config = Config {
        embedding_cache_size: 10,
        hnsw_rebuild_threshold: 3,
        auto_link_candidates: 5,
        decay_interval_secs: 60,
    };
    let mut cortex = CortexEmbedded::open_with_config(":memory:", config, seed("soul")).unwrap();
    let id = cortex.remember(node("n", NodeKind::Fact, "A"), vec![0, 0, 128, 63]).unwrap();
    assert_eq!(id, "n");
    let read = queries::get_node(cortex.connection_mut(), "n").unwrap().unwrap();
    assert_eq!(read.embedding, Some(vec![0, 0, 128, 63]));
    assert!(cortex.remember(node("n", NodeKind::Fact, "B"), vec![]).is_err());
    assert!(!cortex.needs_rebuild(2));
    assert!(cortex.needs_rebuild(3));
    let report = cortex.consolidate(adjusted).unwrap();
    assert_eq!((report.nodes_updated, report.trust_adjustments, report.contradictions_found), (2, 0, 0));
    assert!(CortexEmbedded::open_with_config("/nonexistent/dir/x.db", config, seed("soul")).is_err());
}

#[test]
fn kind_names_read_back() {
    for kind in [
        NodeKind::Soul,
        NodeKind::Fact,
        NodeKind::Entity,
        NodeKind::Decision,
        NodeKind::Pattern,
        NodeKind::Goal,
        NodeKind::Session,
        NodeKind::LoopIteration,
        NodeKind::LlmCall,
        NodeKind::ToolCall,
        NodeKind::BackgroundTask,
        NodeKind::UserInput,
        NodeKind::Notification,
    ] {
        assert_eq!(NodeKind::from_str_opt(kind.as_str()), Some(kind));
    }
    for kind in [
        EdgeKind::RelatesTo,
        EdgeKind::Contradicts,
        EdgeKind::Supports,
        EdgeKind::Supersedes,
        EdgeKind::DerivesFrom,
        EdgeKind::PartOf,
    ] {
        assert_eq!(EdgeKind::from_str_opt(kind.as_str()), Some(kind));
    }
    assert_eq!(NodeKind::from_str_opt("Fact"), None);
    assert_eq!(EdgeKind::from_str_opt(""), None);
}

#[test]
fn prefixes_are_compared_as_they_stand() {
    let mut conn = open_memory().unwrap();
    for id in ["a%b", "a_b", "axb", "A_b", "b"] {
        queries::insert_node(&mut conn, &node(id, NodeKind::Fact, id)).unwrap();
    }
    let mut found = |prefix: &str| {
        let mut ids = queries::find_nodes_by_prefix(&mut conn, prefix).unwrap();
        ids.sort();
        ids
    };
    assert_eq!(found("a_"), vec!["a_b"]);
    assert_eq!(found("a%"), vec!["a%b"]);
    assert_eq!(found("A"), vec!["A_b"]);
    assert_eq!(found("%"), Vec::<String>::new());
    assert_eq!(found("_b"), Vec::<String>::new());
    assert_eq!(found("a_b"), vec!["a_b"]);
    assert_eq!(found("a_bc"), Vec::<String>::new());
    assert_eq!(found("").len(), 5);
}

#[test]
fn a_node_that_hangs_twice_is_recent_once() {
    let mut conn = open_memory().unwrap();
    queries::insert_node(&mut conn, &Node::new(NodeKind::Fact, "A", seed_at("a", 1))).unwrap();
    queries::insert_node(&mut conn, &Node::new(NodeKind::Fact, "B", seed_at("b", 2))).unwrap();
    queries::insert_edge(&mut conn, &edge("e1", "b", "session", EdgeKind::PartOf)).unwrap();
    queries::insert_edge(&mut conn, &edge("e2", "b", "session", EdgeKind::DerivesFrom)).unwrap();
    queries::insert_edge(&mut conn, &edge("e3", "a", "session", EdgeKind::DerivesFrom)).unwrap();
    let recent = queries::get_recent_session_nodes(&mut conn, "session", 2).unwrap();
    let ids: Vec<&str> = recent.iter().map(|n| n.id.as_str()).collect();
    assert_eq!(ids, vec!["b", "a"]);
}

#[test]
fn kinds_are_counted_under_the_names_that_are_stored() {
    let mut conn = open_memory().unwrap();
    for id in ["a", "b", "c"] {
        queries::insert_node(&mut conn, &node(id, NodeKind::Fact, id)).unwrap();
    }
    execute(&mut conn, "UPDATE nodes SET kind = 'mystery' WHERE id = 'c'", vec![]).unwrap();
    let counts = queries::node_count_by_kind(&mut conn).unwrap();
    assert_eq!((counts.get("fact"), counts.get("mystery"), counts.get("goal")), (Some(&2), Some(&1), None));
    let mut entries = counts.entries().clone();
    entries.sort();
    assert_eq!(entries, vec![("fact".to_string(), 2), ("mystery".to_string(), 1)]);
}

#[test]
fn tables_are_created_where_a_database_was_opened() {
    let mut conn = create_schema(Connection::open_in_memory()).unwrap();
    assert_eq!(queries::node_count(&mut conn).unwrap(), 0);
    let again = create_schema(Ok(conn));
    assert!(again.is_ok());
    match create_schema(Err(rusqlite::Error::InvalidQuery)) {
        Err(CortexError::Sqlite(rusqlite::Error::InvalidQuery)) => {}
        _ => panic!("nothing was opened"),
    }
    let mut odd = Connection::open_in_memory().unwrap();
    execute(&mut odd, "CREATE VIEW nodes AS SELECT 1", vec![]).unwrap();
    match create_schema(Ok(odd)) {
        Err(CortexError::Sqlite(_)) => {}
        _ => panic!("a view is no table"),
    }
}

#[test]
fn an_agent_starts_on_a_database_that_was_opened() {
    let config = Config {
        embedding_cache_size: 10,
        hnsw_rebuild_threshold: 3,
        auto_link_candidates: 5,
        decay_interval_secs: 60,
    };
    let mut conn = open_memory().unwrap();
    queries::insert_node(&mut conn, &node("n", NodeKind::Fact, "A")).unwrap();
    let mut cortex = CortexEmbedded::on_database(Ok(conn), config, seed("soul")).unwrap();
    assert_eq!(queries::node_count(cortex.connection_mut()).unwrap(), 2);
    assert_eq!(queries::get_nodes_by_kind(cortex.connection_mut(), NodeKind::Soul).unwrap()[0].id, "soul");
    match CortexEmbedded::on_database(Err(CortexError::NoRow), config, seed("soul")) {
        Err(CortexError::NoRow) => {}
        _ => panic!("nothing was opened"),
    }
    let bare = Connection::open_in_memory().unwrap();
    match CortexEmbedded::on_database(Ok(bare), config, seed("soul")) {
        Err(CortexError::Sqlite(_)) => {}
        _ => panic!("there are no tables"),
    }
}

#[test]
fn a_tree_comes_by_distance() {
    let mut conn = open_memory().unwrap();
    queries::insert_edge(&mut conn, &edge("e1", "z", "session", EdgeKind::PartOf)).unwrap();
    queries::insert_edge(&mut conn, &edge("e2", "y", "z", EdgeKind::PartOf)).unwrap();
    queries::insert_edge(&mut conn, &edge("e3", "x", "y", EdgeKind::DerivesFrom)).unwrap();
    queries::insert_edge(&mut conn, &edge("e4", "a", "x", EdgeKind::PartOf)).unwrap();
    queries::insert_edge(&mut conn, &edge("e5", "x", "session", EdgeKind::DerivesFrom)).unwrap();
    let tree = queries::collect_session_tree(&mut conn, "session").unwrap();
    let at = |id: &str| tree.iter().position(|x| x == id).unwrap();
    assert_eq!((tree.len(), at("session")), (5, 0));
    assert!(at("z").max(at("x")) < at("y").min(at("a")));
}

#[test]
fn open_contradictions_are_found_by_either_node() {
    let mut conn = open_memory().unwrap();
    for (a, b) in [("a", "b"), ("b", "c"), ("c", "d"), ("d", "a")] {
        queries::insert_contradiction(&mut conn, a, b, 1).unwrap();
    }
    queries::resolve_contradiction(&mut conn, "d", "a").unwrap();
    let ids = vec!["a".to_string(), "b".to_string()];
    let mut found: Vec<(String, String, bool)> = queries::get_unresolved_contradictions(&mut conn, &ids)
        .unwrap()
        .into_iter()
        .map(|c| (c.node_a, c.node_b, c.resolved))
        .collect();
    found.sort();
    let pair = |a: &str, b: &str| (a.to_string(), b.to_string(), false);
    assert_eq!(found, vec![pair("a", "b"), pair("b", "c")]);
    assert_eq!(queries::get_all_unresolved_contradictions(&mut conn).unwrap().len(), 3);
}

#[test]
fn delivered_notifications_are_pending_no_longer() {
    let mut conn = open_memory().unwrap();
    for id in ["n1", "n2"] {
        queries::insert_node(&mut conn, &node(id, NodeKind::Notification, id)).unwrap();
        queries::insert_edge(&mut conn, &edge(&format!("e-{id}"), id, "s", EdgeKind::PartOf)).unwrap();
    }
    let pending = queries::get_pending_notification_nodes(&mut conn, "s").unwrap();
    let ids: Vec<String> = pending.into_iter().map(|n| n.id).collect();
    assert_eq!(ids.len(), 2);
    queries::touch_nodes(&mut conn, &ids, 5).unwrap();
    assert!(queries::get_pending_notification_nodes(&mut conn, "s").unwrap().is_empty());
    assert_eq!(queries::node_count(&mut conn).unwrap(), 2);
}

#[test]
fn a_second_consolidation_settles_nothing() {
    let mut conn = open_memory().unwrap();
    for id in ["a", "b", "c", "d"] {
        queries::insert_node(&mut conn, &node(id, NodeKind::Fact, id)).unwrap();
    }
    queries::insert_contradiction(&mut conn, "a", "b", 1).unwrap();
    queries::insert_contradiction(&mut conn, "b", "c", 2).unwrap();
    queries::insert_contradiction(&mut conn, "c", "d", 3).unwrap();
    queries::insert_edge(&mut conn, &edge("e1", "a", "b", EdgeKind::Supersedes)).unwrap();
    queries::insert_edge(&mut conn, &edge("e2", "d", "c", EdgeKind::Supersedes)).unwrap();
    for _ in 0..2 {
        let report = consolidate(&mut conn, adjusted).unwrap();
        assert_eq!((report.nodes_updated, report.contradictions_found), (4, 1));
        let left = queries::get_all_unresolved_contradictions(&mut conn).unwrap();
        assert_eq!(left.len(), 1);
        assert_eq!((left[0].node_a.as_str(), left[0].node_b.as_str()), ("b", "c"));
    }
    assert_eq!((queries::node_count(&mut conn).unwrap(), queries::edge_count(&mut conn).unwrap()), (4, 2));
}

#[test]
fn deleted_nodes_are_counted_once() {
    let mut conn = open_memory().unwrap();
    for id in ["a", "b", "c"] {
        queries::insert_node(&mut conn, &node(id, NodeKind::Fact, id)).unwrap();
    }
    queries::insert_edge(&mut conn, &edge("e1", "a", "b", EdgeKind::RelatesTo)).unwrap();
    queries::insert_edge(&mut conn, &edge("e2", "c", "x", EdgeKind::RelatesTo)).unwrap();
    queries::insert_contradiction(&mut conn, "c", "b", 1).unwrap();
    let ids: Vec<String> = ["a", "b", "a", "gone"].iter().map(|id| id.to_string()).collect();
    assert_eq!(queries::delete_nodes_bulk(&mut conn, &ids).unwrap(), 2);
    let left = queries::get_all_nodes_light(&mut conn).unwrap();
    assert_eq!(left.iter().map(|n| n.id.as_str()).collect::<Vec<_>>(), vec!["c"]);
    assert_eq!(queries::get_all_edges(&mut conn).unwrap()[0].id, "e2");
    assert_eq!(queries::edge_count(&mut conn).unwrap(), 1);
    assert!(queries::get_all_unresolved_contradictions(&mut conn).unwrap().is_empty());
}

#[test]
fn ids_that_are_asked_for_twice_are_found_once() {
    let mut conn = open_memory().unwrap();
    queries::insert_node(&mut conn, &node("a", NodeKind::Fact, "A")).unwrap();
    queries::insert_node(&mut conn, &node("b", NodeKind::Fact, "B")).unwrap();
    let ids: Vec<String> = ["a", "a", "gone"].iter().map(|id| id.to_string()).collect();
    let found = queries::get_nodes_by_ids(&mut conn, &ids).unwrap();
    assert_eq!(found.iter().map(|n| n.title.as_str()).collect::<Vec<_>>(), vec!["A"]);
}

#[test]
fn a_full_access_count_is_no_obstacle_to_others() {
    let mut conn = open_memory().unwrap();
    for id in ["a", "b"] {
        queries::insert_node(&mut conn, &node(id, NodeKind::Fact, id)).unwrap();
    }
    execute(&mut conn, "UPDATE nodes SET access_count = 9223372036854775807 WHERE id = 'a'", vec![]).unwrap();
    queries::touch_nodes(&mut conn, &["a".to_string(), "b".to_string()], 5).unwrap();
    let b = queries::get_node(&mut conn, "b").unwrap().unwrap();
    assert_eq!((b.access_count, b.last_access), (1, Some(5)));
}

#[test]
fn decay_leaves_everything_but_importance() {
    let mut conn = open_memory().unwrap();
    let old = node("n", NodeKind::Goal, "Title").with_body("body").with_importance(bits(0.8)).with_decay_rate(bits(0.5));
    queries::insert_node(&mut conn, &old).unwrap();
    run_decay(&mut conn, 1_000_000 + 60, 60, decayed).unwrap();
    let read = queries::get_node(&mut conn, "n").unwrap().unwrap();
    assert_eq!(float(read.importance), 0.4);
    assert_eq!((read.kind, read.title.as_str(), read.body.as_deref()), (NodeKind::Goal, "Title", Some("body")));
    assert_eq!((read.trust_score, read.decay_rate, read.access_count), (bits(0.5), bits(0.5), 0));
}
