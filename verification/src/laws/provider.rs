//! What a Provider is for: what it keeps of an item, what it gives back, and what it
//! says of itself.

use vstd::prelude::*;

use crate::db::queries::{nodes_of, search_pattern};
use crate::db::rows::{node_row, Read};
use crate::db::{Exchange, SqlV};
use crate::error::FaultV;
use crate::json::{field, parsed, plain, rendered, text_items, JsonV, MAX_DEPTH};
use crate::omniseed_provider::{
    application, full_result, hits, initialization_json, invokes, item_in, observation_json, plan_json, receipt_json, result_json,
    settings, status_json, validation_json, METHODS,
};
use crate::store::memory::{law_indexed_item_is_in_memory, lemma_retrieval};
use crate::store::{lemma_runs_one, runs, StoreV};
use crate::types::{NodeV, Scores};

verus! {

/// The field of a value, or something else where it is missing.
pub open spec fn field_else(value: JsonV, key: Seq<char>, other: JsonV) -> JsonV {
    match field(value, key) {
        Some(v) => v,
        None => other,
    }
}

/// A result shows an item: its own fields under their own names, where it comes from,
/// and how relevant it is. A list that is missing is empty, an object that is missing
/// has no fields, and anything else that is missing is null.
pub open spec fn shows(result: JsonV, item: JsonV, relevance: JsonV) -> bool {
    let none = JsonV::Array(Seq::empty());
    let blank = JsonV::Object(Map::empty());
    let source = field_else(item, "provenance"@, blank);
    &&& field(result, "id"@) == Some(field_else(item, "id"@, JsonV::Null))
    &&& field(result, "title"@) == Some(field_else(item, "title"@, JsonV::Null))
    &&& field(result, "summary"@) == Some(field_else(item, "summary"@, JsonV::Null))
    &&& field(result, "content"@) == Some(field_else(item, "content"@, JsonV::Null))
    &&& field(result, "provenance"@) == Some(source)
    &&& field(result, "sourceReference"@) == Some(field_else(source, "sourceReference"@, JsonV::Null))
    &&& field(result, "kind"@) == Some(field_else(source, "kind"@, JsonV::Null))
    &&& field(result, "capabilityReferences"@) == Some(field_else(item, "capabilityReferences"@, none))
    &&& field(result, "evidenceReferences"@) == Some(field_else(item, "evidenceReferences"@, none))
    &&& field(result, "metadata"@) == Some(field_else(item, "metadata"@, blank))
    &&& field(result, "relevanceScore"@) == Some(relevance)
}

/// The result for an item shows it field by field.
pub proof fn law_result_shows_the_item(item: JsonV, relevance: JsonV)
    ensures
        shows(result_json(item, relevance), item, relevance),
        shows(full_result(item), item, JsonV::Real(0x3ff0_0000_0000_0000)),
{
    reveal_strlit("id");
    reveal_strlit("sourceReference");
    reveal_strlit("kind");
    reveal_strlit("title");
    reveal_strlit("summary");
    reveal_strlit("content");
    reveal_strlit("provenance");
    reveal_strlit("relevanceScore");
    reveal_strlit("capabilityReferences");
    reveal_strlit("evidenceReferences");
    reveal_strlit("metadata");
    assert("id"@.len() == 2);
    assert("sourceReference"@.len() == 15);
    assert("kind"@.len() == 4);
    assert("title"@.len() == 5);
    assert("summary"@.len() == 7 && "summary"@[0] == 's');
    assert("content"@.len() == 7 && "content"@[0] == 'c');
    assert("provenance"@.len() == 10);
    assert("relevanceScore"@.len() == 14);
    assert("capabilityReferences"@.len() == 20);
    assert("evidenceReferences"@.len() == 18);
    assert("metadata"@.len() == 8);
}

/// Every field that an item holds comes back under its own name when the item is
/// retrieved after it was indexed, and so do the source and the kind of its
/// provenance, as long as its node is as it was stored. Items with real numbers in
/// them, whose digits may be read back otherwise, and items nested deeper than JSON is
/// read are left out.
pub proof fn law_fields_of_an_item_come_back(
    before: StoreV,
    log: Seq<Exchange>,
    middle: StoreV,
    company: Seq<char>,
    operation: Seq<char>,
    input: JsonV,
    now: i64,
    stamp: Seq<char>,
    scores: Scores,
    receipt: JsonV,
    later: StoreV,
    log2: Seq<Exchange>,
    after: StoreV,
    input2: JsonV,
    now2: i64,
    stamp2: Seq<char>,
    scores2: Scores,
    item: JsonV,
    id: Seq<char>,
    r: JsonV,
)
    requires
        operation == "index"@ || operation == "update"@,
        invokes(log, company, operation, input, now, stamp, scores, Ok(receipt)),
        runs(before, log, middle),
        field(input, "item"@) == Some(item),
        field(item, "id"@) == Some(JsonV::Text(id)),
        plain(item, MAX_DEPTH as nat),
        later.nodes.contains_key(id),
        later.nodes[id] == middle.nodes[id],
        invokes(log2, company, "retrieve"@, input2, now2, stamp2, scores2, Ok(r)),
        field(input2, "id"@) == Some(JsonV::Text(id)),
        runs(later, log2, after),
    ensures
        shows(r, item, JsonV::Real(0x3ff0_0000_0000_0000)),
        after == later,
{
    law_indexed_item_is_in_memory(
        before,
        log,
        middle,
        company,
        operation,
        input,
        now,
        stamp,
        scores,
        receipt,
        later,
        log2,
        after,
        input2,
        now2,
        stamp2,
        scores2,
        r,
    );
    lemma_retrieval(later, log2, after, company, input2, now2, stamp2, scores2, r);
    law_result_shows_the_item(item, JsonV::Null);
}

/// The results for some nodes are those of the nodes that hold JSON, in the order of
/// the nodes: `at` tells for each result which node it is for.
pub open spec fn in_order(nodes: Seq<NodeV>, results: Seq<JsonV>, at: Seq<int>) -> bool {
    &&& at.len() == results.len()
    &&& forall|i: int|
        0 <= i < at.len() ==> 0 <= #[trigger] at[i] < nodes.len() && nodes[at[i]].body is Some && parsed(
            nodes[at[i]].body->0,
        ) is Some && shows(results[i], parsed(nodes[at[i]].body->0)->0, JsonV::Real(0x3ff0_0000_0000_0000))
    &&& forall|i: int, j: int| 0 <= i < j < at.len() ==> #[trigger] at[i] < #[trigger] at[j]
    &&& forall|k: int|
        0 <= k < nodes.len() && (#[trigger] nodes[k]).body is Some && parsed(nodes[k].body->0) is Some ==> at.contains(k)
}

/// The results of a search come in the order of the nodes that it found, one for each
/// node that holds JSON and none for any other.
pub proof fn law_results_keep_the_order_of_the_nodes(nodes: Seq<NodeV>) -> (at: Seq<int>)
    ensures
        in_order(nodes, hits(nodes), at),
        (forall|k: int| 0 <= k < nodes.len() ==> item_in(#[trigger] nodes[k]) is Some) ==> at =~= Seq::new(
            nodes.len(),
            |k: int| k,
        ),
    decreases nodes.len(),
{
    if nodes.len() == 0 {
        Seq::empty()
    } else {
        let rest = nodes.drop_last();
        let before = law_results_keep_the_order_of_the_nodes(rest);
        let last = nodes.len() - 1;
        assert forall|k: int| 0 <= k < rest.len() implies rest[k] == nodes[k] by {}
        let at = if item_in(nodes.last()) is Some {
            law_result_shows_the_item(item_in(nodes.last())->0, JsonV::Null);
            before.push(last)
        } else {
            before
        };
        let results = hits(nodes);
        assert forall|i: int| 0 <= i < at.len() implies 0 <= #[trigger] at[i] < nodes.len() && nodes[at[i]].body is Some
            && parsed(nodes[at[i]].body->0) is Some && shows(
            results[i],
            parsed(nodes[at[i]].body->0)->0,
            JsonV::Real(0x3ff0_0000_0000_0000),
        ) by {
            if i < before.len() {
                assert(at[i] == before[i]);
                assert(results[i] == hits(rest)[i]);
            }
        }
        assert forall|i: int, j: int| 0 <= i < j < at.len() implies #[trigger] at[i] < #[trigger] at[j] by {
            assert(at[i] == before[i]);
            if j < before.len() {
                assert(at[j] == before[j]);
            }
        }
        assert forall|k: int|
            0 <= k < nodes.len() && (#[trigger] nodes[k]).body is Some && parsed(nodes[k].body->0) is Some implies at.contains(
            k,
        ) by {
            if k < rest.len() {
                assert(rest[k] == nodes[k]);
                assert(before.contains(k));
                assert(at[before.index_of(k)] == k);
            } else {
                assert(at[before.len() as int] == k);
            }
        }
        if forall|k: int| 0 <= k < nodes.len() ==> item_in(#[trigger] nodes[k]) is Some {
            assert forall|k: int| 0 <= k < rest.len() implies item_in(#[trigger] rest[k]) is Some by {
                assert(rest[k] == nodes[k]);
            }
            assert(at =~= Seq::new(nodes.len(), |k: int| k));
        }
        at
    }
}

/// What a search gives are the nodes that answered its query, in their order, and where
/// each of them holds JSON the result at each place shows the node at that place. It
/// asks for its text, and for twenty results, or as many as it says up to a hundred.
pub proof fn law_search_gives_what_the_query_found(
    log: Seq<Exchange>,
    company: Seq<char>,
    input: JsonV,
    now: i64,
    stamp: Seq<char>,
    scores: Scores,
    r: JsonV,
) -> (at: Seq<int>)
    requires
        invokes(log, company, "search"@, input, now, stamp, scores, Ok(r)),
    ensures
        log.len() == 1,
        log[0].reply is Rows,
        nodes_of(log[0].reply) is Ok,
        ({
            let nodes = nodes_of(log[0].reply)->Ok_0;
            &&& r is Array
            &&& in_order(nodes, r->Array_0, at)
            &&& (forall|k: int|
                0 <= k < nodes.len() ==> (#[trigger] nodes[k]).body is Some && parsed(nodes[k].body->0) is Some)
                ==> r->Array_0.len() == nodes.len() && forall|k: int|
                0 <= k < nodes.len() ==> shows(
                    #[trigger] r->Array_0[k],
                    parsed(nodes[k].body->0)->0,
                    JsonV::Real(0x3ff0_0000_0000_0000),
                )
        }),
        log[0].statement.params == seq![
            SqlV::Text(
                search_pattern(
                    match field(input, "query"@) {
                        Some(JsonV::Text(query)) => query,
                        _ => Seq::empty(),
                    },
                ),
            ),
            SqlV::Integer(
                match field(input, "limit"@) {
                    Some(JsonV::Integer(n)) => if 0 <= n <= 100 {
                        n as i64
                    } else if 100 < n <= u64::MAX {
                        100
                    } else {
                        20
                    },
                    _ => 20,
                },
            ),
        ],
{
    lemma_operations_differ();
    reveal_strlit("");
    assert(""@ =~= Seq::<char>::empty());
    let nodes = nodes_of(log[0].reply)->Ok_0;
    let at = law_results_keep_the_order_of_the_nodes(nodes);
    if forall|k: int| 0 <= k < nodes.len() ==> (#[trigger] nodes[k]).body is Some && parsed(nodes[k].body->0) is Some {
        assert forall|k: int| 0 <= k < nodes.len() implies item_in(#[trigger] nodes[k]) is Some by {}
        assert forall|k: int| 0 <= k < nodes.len() implies shows(
            #[trigger] r->Array_0[k],
            parsed(nodes[k].body->0)->0,
            JsonV::Real(0x3ff0_0000_0000_0000),
        ) by {
            assert(at[k] == k);
        }
    }
    at
}

/// The operations have different names.
proof fn lemma_operations_differ()
    ensures
        "search"@ != "index"@,
        "search"@ != "update"@,
        "search"@ != "remove"@,
        "search"@ != "retrieve"@,
        "retrieve"@ != "index"@,
        "retrieve"@ != "update"@,
        "retrieve"@ != "remove"@,
        "remove"@ != "index"@,
        "remove"@ != "update"@,
{
    reveal_strlit("search");
    reveal_strlit("retrieve");
    reveal_strlit("index");
    reveal_strlit("update");
    reveal_strlit("remove");
    assert("search"@[0] == 's');
    assert("update"@[0] == 'u');
    assert("index"@[0] == 'i');
    assert("remove"@[0] == 'r' && "remove"@.len() == 6);
    assert("retrieve"@[0] == 'r' && "retrieve"@.len() == 8);
}

/// An item is kept as a fact under its own ID: its title, or its summary where it has
/// no title, or else its ID, and its JSON as the body. A new node starts with the
/// scores that it is given, at the time that it is given, never accessed; an older one
/// under the ID keeps when it was created and how it was accessed. Nothing else
/// changes, and the answer names the item, the company and the time.
pub proof fn law_item_is_kept_as_a_fact(
    before: StoreV,
    log: Seq<Exchange>,
    after: StoreV,
    company: Seq<char>,
    operation: Seq<char>,
    input: JsonV,
    now: i64,
    stamp: Seq<char>,
    scores: Scores,
    item: JsonV,
    id: Seq<char>,
    receipt: JsonV,
)
    requires
        operation == "index"@ || operation == "update"@,
        invokes(log, company, operation, input, now, stamp, scores, Ok(receipt)),
        runs(before, log, after),
        field(input, "item"@) == Some(item),
        field(item, "id"@) == Some(JsonV::Text(id)),
    ensures
        ({
            let known = before.nodes.contains_key(id);
            let was = before.nodes[id];
            let title = match field(item, "title"@) {
                Some(JsonV::Text(title)) => title,
                _ => match field(item, "summary"@) {
                    Some(JsonV::Text(summary)) => summary,
                    _ => id,
                },
            };
            after == StoreV {
                nodes: before.nodes.insert(
                    id,
                    seq![
                        SqlV::Text(id),
                        SqlV::Text("fact"@),
                        SqlV::Text(title),
                        SqlV::Text(rendered(item)),
                        SqlV::Real(scores.importance),
                        SqlV::Real(scores.trust_score),
                        if known {
                            was[6]
                        } else {
                            SqlV::Integer(0)
                        },
                        if known {
                            was[7]
                        } else {
                            SqlV::Integer(now)
                        },
                        if known {
                            was[8]
                        } else {
                            SqlV::Null
                        },
                        SqlV::Real(scores.decay_rate),
                        SqlV::Null,
                    ],
                ),
                ..before
            }
        }),
        field(receipt, "id"@) == Some(JsonV::Text(id)),
        field(receipt, "companyId"@) == Some(JsonV::Text(company)),
        field(receipt, "indexedAt"@) == Some(JsonV::Text(stamp)),
{
    lemma_runs_one(before, log, after);
    reveal_strlit("id");
    reveal_strlit("companyId");
    reveal_strlit("indexedAt");
    assert("id"@.len() == 2);
    assert("companyId"@[0] == 'c');
    assert("indexedAt"@[0] == 'i' && "indexedAt"@.len() == 9);
    let known = before.nodes.contains_key(id);
    let was = before.nodes[id];
    let title = match field(item, "title"@) {
        Some(JsonV::Text(title)) => title,
        _ => match field(item, "summary"@) {
            Some(JsonV::Text(summary)) => summary,
            _ => id,
        },
    };
    assert(after.nodes[id] =~= seq![
        SqlV::Text(id),
        SqlV::Text("fact"@),
        SqlV::Text(title),
        SqlV::Text(rendered(item)),
        SqlV::Real(scores.importance),
        SqlV::Real(scores.trust_score),
        if known {
            was[6]
        } else {
            SqlV::Integer(0)
        },
        if known {
            was[7]
        } else {
            SqlV::Integer(now)
        },
        if known {
            was[8]
        } else {
            SqlV::Null
        },
        SqlV::Real(scores.decay_rate),
        SqlV::Null,
    ]);
}

/// An item is stored if and only if it is an object with an ID that is not empty and
/// with a provenance that names its source and its kind. Otherwise nothing is asked of
/// the database, and the first thing that is missing is named.
pub proof fn law_unusable_item_is_refused(
    log: Seq<Exchange>,
    company: Seq<char>,
    operation: Seq<char>,
    input: JsonV,
    now: i64,
    stamp: Seq<char>,
    scores: Scores,
    r: Read<JsonV>,
)
    requires
        operation == "index"@ || operation == "update"@,
        invokes(log, company, operation, input, now, stamp, scores, r),
        field(input, "companyId"@) == Some(JsonV::Text(company)),
    ensures
        ({
            let item = field_else(input, "item"@, JsonV::Null);
            let source = field_else(item, "provenance"@, JsonV::Null);
            let has_id = match field(item, "id"@) {
                Some(JsonV::Text(id)) => id.len() > 0,
                _ => false,
            };
            let names_source = field_else(source, "sourceReference"@, JsonV::Null) is Text && field_else(
                source,
                "kind"@,
                JsonV::Null,
            ) is Text;
            if !(item is Object) {
                log.len() == 0 && r == Read::<JsonV>::Err(FaultV::Config("index requires item"@))
            } else if !has_id {
                log.len() == 0 && r == Read::<JsonV>::Err(FaultV::Config("memory item requires id"@))
            } else if !(source is Object) {
                log.len() == 0 && r == Read::<JsonV>::Err(FaultV::Config("memory item requires provenance"@))
            } else if !names_source {
                log.len() == 0 && r == Read::<JsonV>::Err(
                    FaultV::Config("memory item provenance requires sourceReference and kind"@),
                )
            } else {
                log.len() == 1 && log[0].reply is Changed && (r is Ok <==> log[0].reply->Changed_0 is Ok)
            }
        }),
{
}

/// An operation on memory other than the five, or one for another company, is refused
/// without asking the database. To remove or to retrieve takes an ID.
pub proof fn law_unknown_operation_is_refused(
    log: Seq<Exchange>,
    company: Seq<char>,
    operation: Seq<char>,
    input: JsonV,
    now: i64,
    stamp: Seq<char>,
    scores: Scores,
    r: Read<JsonV>,
)
    requires
        invokes(log, company, operation, input, now, stamp, scores, r),
    ensures
        field(input, "companyId"@) != Some(JsonV::Text(company)) ==> log.len() == 0 && r == Read::<JsonV>::Err(
            FaultV::Config("memory request crosses the configured company boundary"@),
        ),
        field(input, "companyId"@) == Some(JsonV::Text(company)) && operation != "index"@ && operation != "update"@
            && operation != "remove"@ && operation != "search"@ && operation != "retrieve"@ ==> log.len() == 0 && r
            == Read::<JsonV>::Err(FaultV::Config("unsupported Provider operation: "@ + operation)),
        field(input, "companyId"@) == Some(JsonV::Text(company)) && operation == "remove"@ && !(field_else(
            input,
            "id"@,
            JsonV::Null,
        ) is Text) ==> log.len() == 0 && r == Read::<JsonV>::Err(FaultV::Config("remove requires id"@)),
        field(input, "companyId"@) == Some(JsonV::Text(company)) && operation == "retrieve"@ && !(field_else(
            input,
            "id"@,
            JsonV::Null,
        ) is Text) ==> log.len() == 0 && r == Read::<JsonV>::Err(FaultV::Config("retrieve requires id"@)),
{
    lemma_operations_differ();
}

/// What is retrieved is the item in the body of the node with the ID, shown field by
/// field, and null where there is no such node or its body is no JSON. Nothing
/// changes.
pub proof fn law_retrieval_shows_the_node_with_the_id(
    store: StoreV,
    log: Seq<Exchange>,
    after: StoreV,
    company: Seq<char>,
    input: JsonV,
    now: i64,
    stamp: Seq<char>,
    scores: Scores,
    id: Seq<char>,
    r: JsonV,
)
    requires
        invokes(log, company, "retrieve"@, input, now, stamp, scores, Ok(r)),
        field(input, "id"@) == Some(JsonV::Text(id)),
        runs(store, log, after),
    ensures
        after == store,
        !store.nodes.contains_key(id) ==> r == JsonV::Null,
        store.nodes.contains_key(id) ==> match node_row(store.nodes[id]) {
            Ok(node) => if node.body is Some && parsed(node.body->0) is Some {
                shows(r, parsed(node.body->0)->0, JsonV::Real(0x3ff0_0000_0000_0000))
            } else {
                r == JsonV::Null
            },
            Err(_) => false,
        },
{
    lemma_retrieval(store, log, after, company, input, now, stamp, scores, r);
    if store.nodes.contains_key(id) {
        let node = node_row(store.nodes[id])->Ok_0;
        if node.body is Some && parsed(node.body->0) is Some {
            law_result_shows_the_item(parsed(node.body->0)->0, JsonV::Null);
        }
    }
}

/// A request to initialize is in order if and only if it speaks the protocol and names
/// a company and a path that are not empty. Those are then the settings; otherwise the
/// first thing that is wrong is named.
pub proof fn law_settings_are_the_company_and_the_path(params: JsonV)
    ensures
        ({
            let context = field_else(params, "context"@, JsonV::Null);
            let configuration = field_else(params, "configuration"@, JsonV::Null);
            let company = field_else(context, "companyId"@, JsonV::Null);
            let path = field_else(configuration, "databasePath"@, JsonV::Null);
            settings(params) == if field(params, "protocolVersion"@) != Some(
                JsonV::Text("omniseed.provider.protocol/1.0"@),
            ) {
                Read::<(Seq<char>, Seq<char>)>::Err(
                    FaultV::Config(
                        "unsupported Provider protocol: "@ + (match field(params, "protocolVersion"@) {
                            Some(JsonV::Text(protocol)) => protocol,
                            _ => Seq::empty(),
                        }),
                    ),
                )
            } else if !(company is Text) || company->Text_0.len() == 0 {
                Err(FaultV::Config("Provider context requires companyId"@))
            } else if !(path is Text) || path->Text_0.len() == 0 {
                Err(FaultV::Config("Provider configuration requires databasePath"@))
            } else {
                Ok((company->Text_0, path->Text_0))
            }
        }),
{
    reveal_strlit("");
    assert(""@ =~= Seq::<char>::empty());
    reveal_strlit("omniseed.provider.protocol/1.0");
    assert("omniseed.provider.protocol/1.0"@.len() > 0);
}

/// What the Provider says of itself: its protocol and version, that it provides memory,
/// its three offerings, its five operations and its eight methods.
pub proof fn law_provider_says_what_it_offers()
    ensures
        ({
            let said = initialization_json();
            let provider = field_else(said, "provider"@, JsonV::Null);
            let offerings = field_else(said, "offerings"@, JsonV::Null);
            &&& field(said, "protocolVersion"@) == Some(JsonV::Text("omniseed.provider.protocol/1.0"@))
            &&& field(provider, "id"@) == Some(JsonV::Text("omnicede"@))
            &&& field(provider, "name"@) == Some(JsonV::Text("Omnicede"@))
            &&& field(provider, "organisation"@) == Some(JsonV::Text("Omnicede"@))
            &&& field(provider, "version"@) == Some(JsonV::Text("0.1.0"@))
            &&& field(said, "primitiveFamilies"@) == Some(JsonV::Array(seq![JsonV::Text("memory"@)]))
            &&& field(said, "operations"@) == Some(
                JsonV::Array(
                    seq![
                        JsonV::Text("index"@),
                        JsonV::Text("update"@),
                        JsonV::Text("remove"@),
                        JsonV::Text("search"@),
                        JsonV::Text("retrieve"@),
                    ],
                ),
            )
            &&& field(said, "methods"@) == Some(
                JsonV::Array(
                    seq![
                        JsonV::Text("provider.initialize"@),
                        JsonV::Text("provider.status"@),
                        JsonV::Text("provider.validate"@),
                        JsonV::Text("provider.plan"@),
                        JsonV::Text("provider.apply"@),
                        JsonV::Text("provider.observe"@),
                        JsonV::Text("provider.invoke"@),
                        JsonV::Text("provider.shutdown"@),
                    ],
                ),
            )
            &&& offerings is Array
            &&& offerings->Array_0.len() == 3
            &&& forall|i: int|
                0 <= i < 3 ==> field(#[trigger] offerings->Array_0[i], "family"@) == Some(JsonV::Text("memory"@))
            &&& field(offerings->Array_0[0], "id"@) == Some(JsonV::Text("organisational_context"@))
            &&& field(offerings->Array_0[1], "id"@) == Some(JsonV::Text("engineering_history"@))
            &&& field(offerings->Array_0[2], "id"@) == Some(JsonV::Text("retained_company_knowledge"@))
        }),
{
    reveal_strlit("protocolVersion");
    reveal_strlit("provider");
    reveal_strlit("primitiveFamilies");
    reveal_strlit("offerings");
    reveal_strlit("operations");
    reveal_strlit("methods");
    reveal_strlit("id");
    reveal_strlit("name");
    reveal_strlit("organisation");
    reveal_strlit("version");
    reveal_strlit("family");
    assert("protocolVersion"@.len() == 15);
    assert("provider"@.len() == 8);
    assert("primitiveFamilies"@.len() == 17);
    assert("offerings"@.len() == 9);
    assert("operations"@.len() == 10);
    assert("methods"@.len() == 7);
    assert("id"@.len() == 2);
    assert("name"@.len() == 4);
    assert("organisation"@.len() == 12);
    assert("version"@.len() == 7);
    assert("family"@.len() == 6);
    let methods = METHODS@;
    assert(methods.len() == 8);
    assert(text_items(methods) =~= seq![
        JsonV::Text("provider.initialize"@),
        JsonV::Text("provider.status"@),
        JsonV::Text("provider.validate"@),
        JsonV::Text("provider.plan"@),
        JsonV::Text("provider.apply"@),
        JsonV::Text("provider.observe"@),
        JsonV::Text("provider.invoke"@),
        JsonV::Text("provider.shutdown"@),
    ]);
}

/// A Provider that runs is available, connected and healthy, and configured where it has
/// a path.
pub proof fn law_status_tells_whether_it_is_configured(configured: bool)
    ensures
        field(status_json(configured), "implementation_available"@) == Some(JsonV::Bool(true)),
        field(status_json(configured), "configured"@) == Some(JsonV::Bool(configured)),
        field(status_json(configured), "connected"@) == Some(JsonV::Bool(true)),
        field(status_json(configured), "healthy"@) == Some(JsonV::Bool(true)),
{
    reveal_strlit("implementation_available");
    reveal_strlit("configured");
    reveal_strlit("connected");
    reveal_strlit("healthy");
    assert("implementation_available"@.len() == 24);
    assert("configured"@.len() == 10);
    assert("connected"@.len() == 9);
    assert("healthy"@.len() == 7);
}

/// An action is valid if and only if it is on memory and names a resource. A valid one
/// has no issues, and can be applied: what comes of it is named after the company and
/// the resource. Any other has one issue, and cannot be applied. To plan it gives back
/// its ID.
pub proof fn law_action_on_memory_is_valid(company: Seq<char>, action: JsonV)
    ensures
        ({
            let resource = field_else(action, "resourceId"@, JsonV::Null);
            let valid = field(action, "family"@) == Some(JsonV::Text("memory"@)) && resource is Text;
            let checked = validation_json(action);
            let issues = field_else(checked, "issues"@, JsonV::Null);
            let plan = plan_json(action);
            let applied = application(company, action);
            let attributes = field_else(applied->Ok_0, "attributes"@, JsonV::Null);
            &&& field(checked, "valid"@) == Some(JsonV::Bool(valid))
            &&& issues is Array
            &&& issues->Array_0.len() == if valid {
                0nat
            } else {
                1nat
            }
            &&& !valid ==> field(issues->Array_0[0], "message"@) == Some(
                JsonV::Text("Omnicede requires a memory action with resourceId"@),
            )
            &&& field(plan, "deterministic"@) == Some(JsonV::Bool(true))
            &&& field(plan, "actionId"@) == Some(field_else(action, "id"@, JsonV::Null))
            &&& !valid ==> applied == Read::<JsonV>::Err(FaultV::Config("invalid Omnicede memory action"@))
            &&& valid ==> {
                &&& applied is Ok
                &&& field(applied->Ok_0, "providerResourceId"@) == Some(
                    JsonV::Text("omnicede/memory/"@ + company + "/"@ + resource->Text_0),
                )
                &&& field(applied->Ok_0, "status"@) == Some(JsonV::Text("deployed"@))
                &&& field(attributes, "companyId"@) == Some(JsonV::Text(company))
                &&& field(attributes, "durable"@) == Some(JsonV::Bool(true))
                &&& field(attributes, "storage"@) == Some(JsonV::Text("sqlite"@))
            }
        }),
{
    reveal_strlit("valid");
    reveal_strlit("issues");
    reveal_strlit("deterministic");
    reveal_strlit("actionId");
    reveal_strlit("providerResourceId");
    reveal_strlit("status");
    reveal_strlit("attributes");
    reveal_strlit("companyId");
    reveal_strlit("durable");
    reveal_strlit("storage");
    assert("valid"@.len() == 5 && "issues"@.len() == 6);
    assert("deterministic"@.len() == 13 && "actionId"@.len() == 8);
    assert("providerResourceId"@.len() == 18 && "status"@.len() == 6 && "attributes"@.len() == 10);
    assert("companyId"@.len() == 9);
    assert("durable"@.len() == 7 && "durable"@[0] == 'd');
    assert("storage"@.len() == 7 && "storage"@[0] == 's');
}

/// An observation says that the resource is healthy, when that was checked, which
/// resource it was, and as evidence for which company how many nodes there are.
pub proof fn law_observation_counts_the_nodes(company: Seq<char>, resource: JsonV, stamp: Seq<char>, count: i64)
    ensures
        ({
            let seen = observation_json(company, resource, stamp, count);
            let evidence = field_else(seen, "evidence"@, JsonV::Null);
            let first = evidence->Array_0[0];
            &&& field(seen, "status"@) == Some(JsonV::Text("healthy"@))
            &&& field(seen, "checkedAt"@) == Some(JsonV::Text(stamp))
            &&& field(seen, "providerResourceId"@) == Some(field_else(resource, "providerResourceId"@, JsonV::Null))
            &&& evidence is Array
            &&& evidence->Array_0.len() == 1
            &&& field(first, "type"@) == Some(JsonV::Text("omnicede_memory_observation"@))
            &&& field(first, "source"@) == Some(JsonV::Text("omnicede"@))
            &&& field(first, "value"@) == Some(JsonV::Text("healthy"@))
            &&& field(first, "companyId"@) == Some(JsonV::Text(company))
            &&& field(first, "nodeCount"@) == Some(JsonV::Integer(count as int))
            &&& field(first, "providerVersion"@) == Some(JsonV::Text("0.1.0"@))
        }),
{
    reveal_strlit("status");
    reveal_strlit("checkedAt");
    reveal_strlit("providerResourceId");
    reveal_strlit("evidence");
    reveal_strlit("type");
    reveal_strlit("source");
    reveal_strlit("value");
    reveal_strlit("companyId");
    reveal_strlit("nodeCount");
    reveal_strlit("providerVersion");
    assert("status"@.len() == 6 && "checkedAt"@.len() == 9);
    assert("providerResourceId"@.len() == 18 && "evidence"@.len() == 8);
    assert("type"@.len() == 4 && "source"@.len() == 6 && "value"@.len() == 5);
    assert("companyId"@.len() == 9 && "companyId"@[0] == 'c');
    assert("nodeCount"@.len() == 9 && "nodeCount"@[0] == 'n');
    assert("providerVersion"@.len() == 15);
}

/// A value is an object with fields of these names, and no others.
pub open spec fn has_only(value: JsonV, keys: Set<Seq<char>>) -> bool {
    forall|key: Seq<char>| #[trigger] field(value, key) is Some <==> keys.contains(key)
}

/// What the Provider says has the fields that it should have, and no others.
pub proof fn law_nothing_else_is_said(
    item: JsonV,
    relevance: JsonV,
    company: Seq<char>,
    stamp: Seq<char>,
    action: JsonV,
    resource: JsonV,
    count: i64,
    configured: bool,
)
    ensures
        has_only(
            result_json(item, relevance),
            set![
                "id"@,
                "sourceReference"@,
                "kind"@,
                "title"@,
                "summary"@,
                "content"@,
                "provenance"@,
                "relevanceScore"@,
                "capabilityReferences"@,
                "evidenceReferences"@,
                "metadata"@,
            ],
        ),
        has_only(receipt_json(item, company, stamp), set!["id"@, "companyId"@, "indexedAt"@]),
        has_only(
            status_json(configured),
            set!["implementation_available"@, "configured"@, "connected"@, "healthy"@],
        ),
        has_only(validation_json(action), set!["valid"@, "issues"@]),
        has_only(plan_json(action), set!["deterministic"@, "actionId"@]),
        application(company, action) matches Ok(applied) ==> has_only(
            applied,
            set!["providerResourceId"@, "status"@, "attributes"@],
        ),
        has_only(
            observation_json(company, resource, stamp, count),
            set!["status"@, "checkedAt"@, "providerResourceId"@, "evidence"@],
        ),
        has_only(
            initialization_json(),
            set![
                "protocolVersion"@,
                "provider"@,
                "primitiveFamilies"@,
                "offerings"@,
                "operations"@,
                "methods"@,
            ],
        ),
{
}

}
