//! What holds of a Provider's memory in a store that keeps to its statements.

use vstd::prelude::*;

use super::graph::tidy;
use super::nodes::{holds_text, is_stored, law_search_finds_what_holds_the_text, lists_id, mentioning, mentions};
use super::{lemma_runs_one, lemma_runs_split, lemma_runs_two, runs, without_nul, StoreV};
use crate::db::params::node_cells;
use crate::db::queries::{delete_statements, nodes_of};
use crate::db::rows::node_row;
use crate::db::Exchange;
use crate::json::{field, or_null, plain, rendered, text_of, JsonV, MAX_DEPTH};
use crate::omniseed_provider::{
    full_result, hits, invokes, item_in, item_node, item_title, retrieved, search_limit, search_text,
};
use crate::types::{NodeV, Scores};

verus! {

/// The item of a request.
pub open spec fn item_of(input: JsonV) -> JsonV {
    or_null(field(input, "item"@))
}

/// The ID that something carries.
pub open spec fn id_of(value: JsonV) -> Seq<char> {
    text_of(field(value, "id"@))->0
}

/// What is retrieved comes from the node with the ID, and nothing else: null where
/// there is none.
pub proof fn lemma_retrieval(
    store: StoreV,
    log: Seq<Exchange>,
    after: StoreV,
    company: Seq<char>,
    input: JsonV,
    now: i64,
    stamp: Seq<char>,
    scores: Scores,
    r: JsonV,
)
    requires
        invokes(log, company, "retrieve"@, input, now, stamp, scores, Ok(r)),
        runs(store, log, after),
    ensures
        after == store,
        text_of(field(input, "id"@)) is Some,
        store.nodes.contains_key(id_of(input)) ==> {
            let row = store.nodes[id_of(input)];
            &&& node_row(row) is Ok
            &&& r == retrieved(Some(node_row(row)->Ok_0))
        },
        !store.nodes.contains_key(id_of(input)) ==> r == JsonV::Null,
{
    reveal_strlit("retrieve");
    reveal_strlit("index");
    reveal_strlit("update");
    reveal_strlit("remove");
    assert("retrieve"@.len() == 8);
    lemma_runs_one(store, log, after);
}

/// What was indexed is retrieved, whether its ID was new or an older item had it,
/// as long as its node is as it was stored. Items with real numbers in them, whose
/// digits may be read back otherwise, and items nested deeper than JSON is read are
/// left out.
pub proof fn law_indexed_item_is_in_memory(
    before: StoreV,
    log: Seq<Exchange>,
    middle: StoreV,
    company: Seq<char>,
    operation: Seq<char>,
    input: JsonV,
    now: i64,
    stamp: Seq<char>,
    scores: Scores,
    receipt: JsonV,
    later: StoreV,
    log2: Seq<Exchange>,
    after: StoreV,
    input2: JsonV,
    now2: i64,
    stamp2: Seq<char>,
    scores2: Scores,
    r: JsonV,
)
    requires
        operation == "index"@ || operation == "update"@,
        invokes(log, company, operation, input, now, stamp, scores, Ok(receipt)),
        runs(before, log, middle),
        plain(item_of(input), MAX_DEPTH as nat),
        later.nodes.contains_key(id_of(item_of(input))),
        later.nodes[id_of(item_of(input))] == middle.nodes[id_of(item_of(input))],
        invokes(log2, company, "retrieve"@, input2, now2, stamp2, scores2, Ok(r)),
        text_of(field(input2, "id"@)) == Some(id_of(item_of(input))),
        runs(later, log2, after),
    ensures
        r == full_result(item_of(input)),
{
    let item = item_of(input);
    let node = item_node(item, now, scores);
    let id = id_of(item);
    lemma_runs_one(before, log, middle);
    lemma_retrieval(later, log2, after, company, input2, now2, stamp2, scores2, r);
    let row = later.nodes[id];
    assert(node_cells(node).len() == 11);
    assert(row[3] == node_cells(node)[3]);
    let found = node_row(row)->Ok_0;
    assert(found.body == node.body);
    assert(item_in(found) == item_in(node));
}

/// An item that was removed is gone: null is retrieved, until something is stored
/// under its ID again. The removal tells whether there was such an item.
pub proof fn law_removed_item_is_gone(
    before: StoreV,
    log: Seq<Exchange>,
    middle: StoreV,
    company: Seq<char>,
    input: JsonV,
    now: i64,
    stamp: Seq<char>,
    scores: Scores,
    removed: JsonV,
    later: StoreV,
    log2: Seq<Exchange>,
    after: StoreV,
    input2: JsonV,
    now2: i64,
    stamp2: Seq<char>,
    scores2: Scores,
    r: JsonV,
)
    requires
        invokes(log, company, "remove"@, input, now, stamp, scores, Ok(removed)),
        runs(before, log, middle),
        later.nodes.contains_key(id_of(input)) == middle.nodes.contains_key(id_of(input)),
        invokes(log2, company, "retrieve"@, input2, now2, stamp2, scores2, Ok(r)),
        text_of(field(input2, "id"@)) == text_of(field(input, "id"@)),
        runs(later, log2, after),
    ensures
        removed == JsonV::Bool(before.nodes.contains_key(id_of(input))),
        middle.nodes == before.nodes.remove(id_of(input)),
        r == JsonV::Null,
{
    reveal_strlit("remove");
    reveal_strlit("index");
    reveal_strlit("update");
    assert("remove"@[0] == 'r');
    assert("index"@[0] == 'i');
    assert("update"@[0] == 'u');
    let id = id_of(input);
    let statements = delete_statements(id);
    let one = lemma_runs_split(before, log, middle, 1);
    lemma_runs_one(before, log.take(1), one);
    assert(log.take(1)[0] == log[0]);
    assert(log[0].statement == statements[0]);
    let rest = log.skip(1);
    let two = lemma_runs_two(one, rest, middle);
    assert(rest[0] == log[1]);
    assert(rest[1] == log[2]);
    assert(log[1].statement == statements[1]);
    assert(log[2].statement == statements[2]);
    assert(two.nodes == before.nodes);
    lemma_retrieval(later, log2, after, company, input2, now2, stamp2, scores2, r);
}

/// Where nothing was stored under an ID, null is retrieved.
pub proof fn law_unknown_item_is_null(
    store: StoreV,
    log: Seq<Exchange>,
    after: StoreV,
    company: Seq<char>,
    input: JsonV,
    now: i64,
    stamp: Seq<char>,
    scores: Scores,
    r: JsonV,
)
    requires
        invokes(log, company, "retrieve"@, input, now, stamp, scores, Ok(r)),
        !store.nodes.contains_key(id_of(input)),
        runs(store, log, after),
    ensures
        r == JsonV::Null,
{
    lemma_retrieval(store, log, after, company, input, now, stamp, scores, r);
}

/// An item is found by any text that its title or its JSON holds, as long as its node
/// is as it was stored and no more nodes hold the text than the search may give.
/// Texts with a backslash in them, which a pattern does not take as it stands, and
/// items that may be read back otherwise are left out.
pub proof fn law_indexed_item_is_found_by_its_text(
    before: StoreV,
    log: Seq<Exchange>,
    middle: StoreV,
    company: Seq<char>,
    operation: Seq<char>,
    input: JsonV,
    now: i64,
    stamp: Seq<char>,
    scores: Scores,
    receipt: JsonV,
    later: StoreV,
    log2: Seq<Exchange>,
    after: StoreV,
    input2: JsonV,
    now2: i64,
    stamp2: Seq<char>,
    scores2: Scores,
    r: JsonV,
)
    requires
        operation == "index"@ || operation == "update"@,
        invokes(log, company, operation, input, now, stamp, scores, Ok(receipt)),
        runs(before, log, middle),
        plain(item_of(input), MAX_DEPTH as nat),
        later.nodes.contains_key(id_of(item_of(input))),
        later.nodes[id_of(item_of(input))] == middle.nodes[id_of(item_of(input))],
        tidy(later),
        later.nodes.dom().finite(),
        without_nul(later),
        invokes(log2, company, "search"@, input2, now2, stamp2, scores2, Ok(r)),
        !search_text(input2).contains('\\'),
        !search_text(input2).contains('\0'),
        mentioning(later, search_text(input2)).len() <= search_limit(input2),
        holds_text(item_title(item_of(input)), search_text(input2)) || holds_text(
            rendered(item_of(input)),
            search_text(input2),
        ),
        runs(later, log2, after),
    ensures
        r is Array,
        r->Array_0.contains(full_result(item_of(input))),
{
    reveal_strlit("search");
    reveal_strlit("retrieve");
    reveal_strlit("index");
    reveal_strlit("update");
    reveal_strlit("remove");
    assert("search"@[0] == 's');
    assert("update"@[0] == 'u');
    assert("remove"@[0] == 'r');
    assert("index"@[0] == 'i');
    assert("retrieve"@[0] == 'r');
    let item = item_of(input);
    let node = item_node(item, now, scores);
    let id = id_of(item);
    let query = search_text(input2);
    lemma_runs_one(before, log, middle);
    lemma_runs_one(later, log2, after);
    let row = later.nodes[id];
    assert(node_cells(node).len() == 11);
    assert(row[2] == node_cells(node)[2]);
    assert(row[3] == node_cells(node)[3]);
    assert(mentions(later, query, id));
    let found = nodes_of(log2[0].reply)->Ok_0;
    law_search_finds_what_holds_the_text(later, query, search_limit(input2) as i64, log2[0], found);
    assert(lists_id(found, id));
    let at = choose|i: int| 0 <= i < found.len() && (#[trigger] found[i]).id == id;
    assert(is_stored(later, found[at]));
    assert(found[at].body == node.body);
    assert(item_in(found[at]) == Some(item));
    lemma_hit(found, at);
}

/// The item in a node is among the results.
proof fn lemma_hit(nodes: Seq<NodeV>, at: int)
    requires
        0 <= at < nodes.len(),
        item_in(nodes[at]) is Some,
    ensures
        hits(nodes).contains(full_result(item_in(nodes[at])->0)),
    decreases nodes.len(),
{
    let hit = full_result(item_in(nodes[at])->0);
    let rest = nodes.drop_last();
    if at < rest.len() {
        lemma_hit(rest, at);
        let i = hits(rest).index_of(hit);
        assert(hits(nodes)[i] == hit);
    } else {
        assert(hits(nodes).last() == hit);
        assert(hits(nodes)[hits(nodes).len() - 1] == hit);
    }
}

}
