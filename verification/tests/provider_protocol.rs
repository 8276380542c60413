//! The memory Provider and its JSON-RPC server.

use omnicede::error::CortexError;
use omnicede::json::{parse, render, Json};
use omnicede::omniseed_provider::{make_titled_node, result, OmnicedeProvider, METHODS, PROTOCOL};
use omnicede::rpc::{adopt, current, handle_line, handle_request, Reply};
use omnicede::types::Scores;

fn scores() -> Scores {
    Scores { importance: 0.5f64.to_bits(), trust_score: 0.5f64.to_bits(), decay_rate: 0.01f64.to_bits() }
}

fn json(text: &str) -> Json {
    parse(text).expect("JSON")
}

fn field<'a>(value: &'a Json, path: &[&str]) -> &'a Json {
    let mut value = value;
    for key in path {
        value = value.get(key).expect("field");
    }
    value
}

fn text<'a>(value: &'a Json, path: &[&str]) -> &'a str {
    field(value, path).as_text().expect("text")
}

fn items(value: &Json) -> &Vec<Json> {
    match value {
        Json::Array(items) => items,
        _ => panic!("no list"),
    }
}

fn parameters(path: &str) -> Json {
    Json::object()
        .with("protocolVersion", Json::text(PROTOCOL))
        .with("configuration", Json::object().with("databasePath", Json::text(path)))
        .with("context", Json::object().with("companyId", Json::text("omniseed_ecosystem")))
}

fn provider(path: &str) -> OmnicedeProvider {
    OmnicedeProvider::initialize(&parameters(path), scores()).expect("initialize Provider")
}

fn refused(params: &str) -> String {
    match OmnicedeProvider::initialize(&json(params), scores()) {
        Err(CortexError::Config(message)) => message,
        _ => panic!("not refused"),
    }
}

#[test]
fn provider_is_memory_only_and_observation_contains_evidence() {
    let mut subject = provider(":memory:");
    let initialized = subject.initialization();
    assert_eq!(text(&initialized, &["provider", "id"]), "omnicede");
    assert_eq!(field(&initialized, &["primitiveFamilies"]), &json(r#"["memory"]"#));
    let action = json(r#"{"id": "memory-1", "family": "memory", "resourceId": "ecosystem_memory"}"#);
    assert_eq!(field(&subject.validate(&action), &["valid"]), &Json::Bool(true));
    let applied = subject.apply(&action).expect("apply");
    let observed = subject.observe(&applied).expect("observe");
    assert_eq!(text(&observed, &["status"]), "healthy");
    let evidence = items(field(&observed, &["evidence"]));
    assert_eq!(text(&evidence[0], &["source"]), "omnicede");
    assert_eq!(field(&evidence[0], &["nodeCount"]), &Json::Signed(0));
    assert_eq!(text(&observed, &["providerResourceId"]), "omnicede/memory/omniseed_ecosystem/ecosystem_memory");
    assert!(text(&observed, &["checkedAt"]).len() >= 20);
}

#[test]
fn provider_round_trips_company_isolated_memory() {
    let mut subject = provider(":memory:");
    let item = json(
        r#"{
            "id": "decision-1",
            "title": "Provider naming decision",
            "content": "Providers identify supplying organisations.",
            "provenance": {"sourceReference": "git:decision-1", "kind": "decision"},
            "capabilityReferences": ["steward_omniseed_ecosystem"],
            "evidenceReferences": ["git:decision-1"]
        }"#,
    );
    let input = Json::object().with("companyId", Json::text("omniseed_ecosystem")).with("item", item);
    let receipt = subject.invoke("index", &input, 7).expect("index");
    assert_eq!(text(&receipt, &["id"]), "decision-1");
    assert_eq!(text(&receipt, &["companyId"]), "omniseed_ecosystem");
    let found = subject
        .invoke("search", &json(r#"{"companyId": "omniseed_ecosystem", "query": "supplying organisations"}"#), 7)
        .expect("search");
    assert_eq!(items(&found).len(), 1);
    assert_eq!(text(&items(&found)[0], &["id"]), "decision-1");
    let retrieved = subject
        .invoke("retrieve", &json(r#"{"companyId": "omniseed_ecosystem", "id": "decision-1"}"#), 7)
        .expect("retrieve");
    assert_eq!(text(&retrieved, &["sourceReference"]), "git:decision-1");
    assert_eq!(text(&retrieved, &["title"]), "Provider naming decision");
    assert_eq!(field(&retrieved, &["relevanceScore"]), &Json::Real(1.0f64.to_bits()));
    assert_eq!(field(&retrieved, &["summary"]), &Json::Null);
    assert_eq!(field(&retrieved, &["metadata"]), &Json::object());
    assert_eq!(field(&retrieved, &["evidenceReferences"]), &json(r#"["git:decision-1"]"#));
    let crossed =
        subject.invoke("retrieve", &json(r#"{"companyId": "another_company", "id": "decision-1"}"#), 7);
    assert!(crossed.is_err());
    let removed = subject
        .invoke("remove", &json(r#"{"companyId": "omniseed_ecosystem", "id": "decision-1"}"#), 7)
        .expect("remove");
    assert_eq!(removed, Json::Bool(true));
    let gone = subject
        .invoke("retrieve", &json(r#"{"companyId": "omniseed_ecosystem", "id": "decision-1"}"#), 7)
        .expect("retrieve");
    assert_eq!(gone, Json::Null);
}

#[test]
fn provider_rejects_missing_durable_path() {
    let params = Json::object()
        .with("protocolVersion", Json::text(PROTOCOL))
        .with("configuration", Json::object())
        .with("context", Json::object().with("companyId", Json::text("omniseed_ecosystem")));
    let result = OmnicedeProvider::initialize(&params, scores());
    assert!(result.is_err());
}

#[test]
fn initialization_names_what_is_missing() {
    assert_eq!(refused("{}"), "unsupported Provider protocol: ");
    assert_eq!(refused(r#"{"protocolVersion": "x"}"#), "unsupported Provider protocol: x");
    let with = |rest: &str| format!(r#"{{"protocolVersion": "{PROTOCOL}"{rest}}}"#);
    assert_eq!(refused(&with("")), "Provider context requires companyId");
    assert_eq!(refused(&with(r#", "context": {"companyId": ""}"#)), "Provider context requires companyId");
    assert_eq!(refused(&with(r#", "context": ["companyId"]"#)), "Provider context requires companyId");
    let rest = r#", "context": {"companyId": "c"}, "configuration": {"databasePath": ""}"#;
    assert_eq!(refused(&with(rest)), "Provider configuration requires databasePath");
    let unreachable = parameters("/nonexistent/dir/memory.db");
    match OmnicedeProvider::initialize(&unreachable, scores()) {
        Err(CortexError::Sqlite(_)) => {}
        _ => panic!("opened"),
    }
}

#[test]
fn actions_are_checked() {
    let subject = provider(":memory:");
    for bad in [r#"{}"#, r#"{"family": "memory"}"#, r#"{"family": "x", "resourceId": "r"}"#, r#"null"#] {
        let action = json(bad);
        let checked = subject.validate(&action);
        assert_eq!(field(&checked, &["valid"]), &Json::Bool(false));
        assert_eq!(items(field(&checked, &["issues"])).len(), 1);
        match subject.apply(&action) {
            Err(e) => assert_eq!(e.message(), "invalid Omnicede memory action"),
            Ok(_) => panic!("applied"),
        }
    }
    let action = json(r#"{"id": 7, "family": "memory", "resourceId": "r"}"#);
    assert_eq!(items(field(&subject.validate(&action), &["issues"])).len(), 0);
    let applied = subject.apply(&action).unwrap();
    assert_eq!(text(&applied, &["status"]), "deployed");
    assert_eq!(text(&applied, &["attributes", "storage"]), "sqlite");
    let plan = subject.plan(&action);
    assert_eq!(field(&plan, &["actionId"]), &Json::Unsigned(7));
    assert_eq!(field(&subject.plan(&Json::Null), &["actionId"]), &Json::Null);
    let status = subject.status();
    for key in ["implementation_available", "configured", "connected", "healthy"] {
        assert_eq!(field(&status, &[key]), &Json::Bool(true));
    }
    let initialized = subject.initialization();
    let methods: Vec<&str> = items(field(&initialized, &["methods"])).iter().map(|m| m.as_text().unwrap()).collect();
    assert_eq!(methods, METHODS);
    assert_eq!(items(field(&initialized, &["offerings"])).len(), 3);
    assert_eq!(items(field(&initialized, &["operations"])).len(), 5);
}

fn index_error(input: &str) -> String {
    let mut subject = provider(":memory:");
    match subject.invoke("index", &json(input), 7) {
        Err(e) => e.message(),
        Ok(_) => panic!("indexed"),
    }
}

#[test]
fn items_are_checked() {
    assert_eq!(index_error(r#"{"companyId": "omniseed_ecosystem"}"#), "index requires item");
    assert_eq!(index_error(r#"{"companyId": "omniseed_ecosystem", "item": []}"#), "index requires item");
    assert_eq!(index_error(r#"{"companyId": "omniseed_ecosystem", "item": {"id": ""}}"#), "memory item requires id");
    assert_eq!(
        index_error(r#"{"companyId": "omniseed_ecosystem", "item": {"id": "x"}}"#),
        "memory item requires provenance"
    );
    assert_eq!(
        index_error(r#"{"companyId": "omniseed_ecosystem", "item": {"id": "x", "provenance": {"kind": "k"}}}"#),
        "memory item provenance requires sourceReference and kind"
    );
    assert_eq!(
        index_error(r#"{"companyId": "x", "item": {"id": "x", "provenance": {"kind": "k", "sourceReference": "s"}}}"#),
        "memory request crosses the configured company boundary"
    );
    let mut subject = provider(":memory:");
    let company = json(r#"{"companyId": "omniseed_ecosystem"}"#);
    for (operation, message) in [
        ("remove", "remove requires id"),
        ("retrieve", "retrieve requires id"),
        ("dance", "unsupported Provider operation: dance"),
    ] {
        match subject.invoke(operation, &company, 7) {
            Err(e) => assert_eq!(e.message(), message),
            Ok(_) => panic!("done"),
        }
    }
}

#[test]
fn titles_fall_back() {
    let title = |item: &str| make_titled_node(&json(item), "body", 7, scores()).title;
    assert_eq!(title(r#"{"id": "i", "title": "t", "summary": "s"}"#), "t");
    assert_eq!(title(r#"{"id": "i", "summary": "s"}"#), "s");
    assert_eq!(title(r#"{"id": "i", "title": 3}"#), "i");
    let node = make_titled_node(&json(r#"{"id": "i"}"#), "body", 7, scores());
    assert_eq!((node.id.as_str(), node.body.as_deref(), node.created_at), ("i", Some("body"), 7));
}

#[test]
fn results_of_anything() {
    let one = result(&Json::text("no object"), 0.25f64.to_bits());
    assert_eq!(field(&one, &["id"]), &Json::Null);
    assert_eq!(field(&one, &["provenance"]), &Json::object());
    assert_eq!(field(&one, &["relevanceScore"]), &Json::Real(0.25f64.to_bits()));
    let two = result(&json(r#"{"id": 1, "provenance": "x", "metadata": {"a": 1}}"#), 0);
    assert_eq!(field(&two, &["id"]), &Json::Unsigned(1));
    assert_eq!(field(&two, &["kind"]), &Json::Null);
    assert_eq!(text(&two, &["provenance"]), "x");
    assert_eq!(field(&two, &["metadata", "a"]), &Json::Unsigned(1));
    assert_eq!(field(&two, &["capabilityReferences"]), &Json::Array(vec![]));
}

fn put(subject: &mut OmnicedeProvider, id: &str) {
    let item = format!(
        r#"{{"companyId": "omniseed_ecosystem",
            "item": {{"id": "{id}", "title": "thing {id}", "provenance": {{"sourceReference": "s", "kind": "k"}}}}}}"#
    );
    subject.invoke("update", &json(&item), 7).unwrap();
}

#[test]
fn searches_are_limited() {
    let mut subject = provider(":memory:");
    for i in 0..105 {
        put(&mut subject, &format!("i{i}"));
    }
    let mut count = |input: &str| {
        let input = json(&format!(r#"{{"companyId": "omniseed_ecosystem"{input}}}"#));
        items(&subject.invoke("search", &input, 7).unwrap()).len()
    };
    assert_eq!(count(""), 20);
    assert_eq!(count(r#", "limit": 3"#), 3);
    assert_eq!(count(r#", "limit": 0"#), 0);
    assert_eq!(count(r#", "limit": 1000"#), 100);
    assert_eq!(count(r#", "limit": -1"#), 20);
    assert_eq!(count(r#", "limit": 2.0"#), 20);
    assert_eq!(count(r#", "limit": "3""#), 20);
    assert_eq!(count(r#", "query": "thing i104""#), 1);
}

fn ask(provider: &mut Option<OmnicedeProvider>, line: &str) -> Reply {
    handle_line(provider, line, 7, scores())
}

#[test]
fn the_server_answers_line_by_line() {
    let mut none: Option<OmnicedeProvider> = None;
    let reply = ask(&mut none, "no json");
    assert_eq!(reply.line, r#"{"error":{"code":-32700,"message":"Parse error"},"id":null,"jsonrpc":"2.0"}"#);
    assert!(!reply.stop);
    let reply = ask(&mut none, r#"{"id": 1, "method": "provider.dance"}"#);
    assert_eq!(reply.line, r#"{"error":{"code":-32601,"message":"Method not found"},"id":1,"jsonrpc":"2.0"}"#);
    let reply = ask(&mut none, r#"{"id": "a", "method": "provider.status"}"#);
    assert_eq!(
        reply.line,
        r#"{"error":{"code":-32000,"message":"Provider is not initialized"},"id":"a","jsonrpc":"2.0"}"#
    );
    match current(&none) {
        Err(message) => assert_eq!(message, "Provider is not initialized"),
        Ok(_) => panic!("there is none"),
    }
    let reply = ask(&mut none, r#"{"id": 2, "method": "provider.initialize"}"#);
    assert!(reply.line.contains("unsupported Provider protocol: "));
    assert!(none.is_none());
    let start = Json::object()
        .with("id", Json::Unsigned(3))
        .with("method", Json::text("provider.initialize"))
        .with("params", parameters(":memory:"));
    let reply = ask(&mut none, &render(&start));
    assert!(reply.line.contains(r#""protocolVersion":"omniseed.provider.protocol/1.0""#));
    assert!(current(&none).is_ok());
    let reply = ask(&mut none, r#"{"id": 4, "method": "provider.status"}"#);
    assert_eq!(
        reply.line,
        r#"{"id":4,"jsonrpc":"2.0","result":{"configured":true,"connected":true,"healthy":true,"implementation_available":true}}"#
    );
    for (method, key) in [("validate", "valid"), ("plan", "deterministic")] {
        let reply = ask(&mut none, &format!(r#"{{"method": "provider.{method}", "params": {{"action": {{}}}}}}"#));
        assert!(reply.line.contains(key));
        assert!(reply.line.contains(r#""id":null"#));
    }
    let reply = ask(&mut none, r#"{"id": 5, "method": "provider.apply"}"#);
    assert!(reply.line.contains("invalid Omnicede memory action"));
    let reply = ask(&mut none, r#"{"id": 6, "method": "provider.observe"}"#);
    assert!(reply.line.contains(r#""nodeCount":0"#));
    let reply = ask(&mut none, r#"{"id": 7, "method": "provider.invoke", "params": {"input": {}}}"#);
    assert!(reply.line.contains("memory request crosses the configured company boundary"));
    let invoke = r#"{"id": 8, "method": "provider.invoke",
        "params": {"operation": "search", "input": {"companyId": "omniseed_ecosystem"}}}"#;
    assert_eq!(ask(&mut none, invoke).line, r#"{"id":8,"jsonrpc":"2.0","result":[]}"#);
    let reply = ask(&mut none, r#"{"id": 9, "method": "provider.shutdown"}"#);
    assert_eq!(reply.line, r#"{"id":9,"jsonrpc":"2.0","result":{"shutdown":true}}"#);
    assert!(reply.stop);
}

#[test]
fn observations_carry_the_time_that_is_given() {
    let mut some = Some(provider(":memory:"));
    let request = json(r#"{"id": 1, "method": "provider.observe", "params": {"resource": {"providerResourceId": "p"}}}"#);
    let response = handle_request(&mut some, &request, 7, "2030-01-02T03:04:05+00:00", scores());
    assert_eq!(text(&response, &["result", "checkedAt"]), "2030-01-02T03:04:05+00:00");
    assert_eq!(text(&response, &["result", "providerResourceId"]), "p");
}

#[test]
fn json_reads_back() {
    let source = r#"{"a":[1,-2,true,null,"x\n"],"b":{"c":18446744073709551615}}"#;
    let value = json(source);
    assert_eq!(render(&value), source);
    assert_eq!(json(&render(&value)), value);
    assert_eq!(render(&value.copy()), source);
    assert_eq!(json("1.5"), Json::Real(1.5f64.to_bits()));
    assert_eq!(render(&Json::Real(f64::NAN.to_bits())), "null");
    assert_eq!(render(&Json::Real(1.0f64.to_bits())), "1.0");
    assert_eq!(parse("{"), None);
    assert_eq!(json(r#"{"k": 1, "k": 2}"#).get("k"), Some(&Json::Unsigned(2)));
    let twice = Json::object().with("k", Json::Unsigned(1)).with("k", Json::Unsigned(2));
    assert_eq!(twice.get("k"), Some(&Json::Unsigned(2)));
    assert_eq!(render(&twice), r#"{"k":2}"#);
    let deep = format!("{}{}", "[".repeat(127), "]".repeat(127));
    assert!(parse(&deep).is_some());
    let deeper = format!("{}{}", "[".repeat(128), "]".repeat(128));
    assert!(parse(&deeper).is_none());
}

#[test]
fn a_provider_stays_with_its_company() {
    let mut some = Some(provider(":memory:"));
    put(some.as_mut().unwrap(), "kept");
    let refused = ask(&mut some, r#"{"id": 1, "method": "provider.initialize", "params": {}}"#);
    assert!(refused.line.contains("error"));
    let foreign = r#"{"id": 2, "method": "provider.invoke",
        "params": {"operation": "remove", "input": {"companyId": "another_company", "id": "kept"}}}"#;
    assert!(ask(&mut some, foreign).line.contains("crosses the configured company boundary"));
    let own = r#"{"id": 3, "method": "provider.invoke",
        "params": {"operation": "retrieve", "input": {"companyId": "omniseed_ecosystem", "id": "kept"}}}"#;
    assert!(ask(&mut some, own).line.contains(r#""title":"thing kept""#));
}

#[test]
fn providers_on_the_same_database_share_its_memory() {
    let path = format!("file:{}?mode=memory&cache=shared", uuid::Uuid::new_v4());
    let mut first = provider(&path);
    put(&mut first, "shared");
    let mut second = provider(&path);
    let input = json(r#"{"companyId": "omniseed_ecosystem", "id": "shared"}"#);
    assert_eq!(text(&second.invoke("retrieve", &input, 7).unwrap(), &["title"]), "thing shared");
    let mut elsewhere = provider(":memory:");
    assert_eq!(elsewhere.invoke("retrieve", &input, 7).unwrap(), Json::Null);
}

#[test]
fn a_provider_starts_on_a_database_that_was_opened() {
    let on = |opened| OmnicedeProvider::on_database("acme".to_string(), "memory.db".to_string(), opened, scores());
    let mut subject = on(omnicede::db::open_memory()).unwrap();
    let input = json(r#"{"companyId": "acme", "id": "x"}"#);
    assert_eq!(subject.invoke("retrieve", &input, 7).unwrap(), Json::Null);
    match on(Err(CortexError::NoRow)) {
        Err(CortexError::NoRow) => {}
        _ => panic!("nothing was opened"),
    }
    let mut held = None;
    assert_eq!(adopt(&mut held, Err(CortexError::NoRow)).unwrap_err(), "Query returned no rows");
    assert!(held.is_none());
    let adopted = adopt(&mut held, Ok(subject)).unwrap();
    assert_eq!(text(&adopted, &["provider", "id"]), "omnicede");
    assert!(adopt(&mut held, Err(CortexError::NoRow)).is_err());
    assert!(held.is_some());
}

#[test]
fn memory_keeps_what_was_indexed_last() {
    let mut subject = provider(":memory:");
    let retrieve = json(r#"{"companyId": "omniseed_ecosystem", "id": "x"}"#);
    assert_eq!(subject.invoke("retrieve", &retrieve, 1).unwrap(), Json::Null);
    assert_eq!(subject.invoke("remove", &retrieve, 1).unwrap(), Json::Bool(false));
    for (operation, content) in [("index", "one"), ("index", "two"), ("update", "three")] {
        let item = Json::object()
            .with("id", Json::text("x"))
            .with("content", Json::text(content))
            .with("provenance", json(r#"{"sourceReference": "s", "kind": "k"}"#));
        let input = Json::object().with("companyId", Json::text("omniseed_ecosystem")).with("item", item);
        subject.invoke(operation, &input, 2).unwrap();
        assert_eq!(text(&subject.invoke("retrieve", &retrieve, 3).unwrap(), &["content"]), content);
    }
    assert_eq!(subject.invoke("remove", &retrieve, 4).unwrap(), Json::Bool(true));
    assert_eq!(subject.invoke("retrieve", &retrieve, 5).unwrap(), Json::Null);
    assert_eq!(subject.invoke("remove", &retrieve, 6).unwrap(), Json::Bool(false));
}

#[test]
fn times_have_a_date_a_time_of_day_and_no_offset() {
    let mut subject = provider(":memory:");
    let observed = subject.observe(&Json::Null).unwrap();
    let stamp = text(&observed, &["checkedAt"]);
    assert!(stamp.len() >= 25);
    assert!(stamp.ends_with("+00:00"));
    assert_eq!(&stamp[10..11], "T");
}

#[test]
fn items_are_found_by_the_texts_they_hold() {
    let mut subject = provider(":memory:");
    let item = json(
        r#"{"id": "x", "title": "Naming", "content": "Ships 100% of it",
            "provenance": {"sourceReference": "git:42", "kind": "decision"}}"#,
    );
    let input = Json::object().with("companyId", Json::text("omniseed_ecosystem")).with("item", item);
    subject.invoke("index", &input, 7).unwrap();
    put(&mut subject, "other");
    let mut found = |query: &str| {
        let input = Json::object()
            .with("companyId", Json::text("omniseed_ecosystem"))
            .with("query", Json::text(query));
        let found = subject.invoke("search", &input, 7).unwrap();
        items(&found).iter().any(|hit| text(hit, &["id"]) == "x")
    };
    for query in ["naming", "SHIPS 100% of", "git:42", "\"kind\":\"decision\"", ""] {
        assert!(found(query), "{query}");
    }
    for query in ["1000% of", "Ships _00%", "thing other"] {
        assert!(!found(query), "{query}");
    }
}
