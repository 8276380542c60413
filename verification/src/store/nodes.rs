//! What holds of nodes, of lists of them, of searches and of counts in a store that
//! keeps to its statements.

use vstd::prelude::*;

use super::graph::tidy;
use super::{
    answers, counts_to, does, fits, holds_light, lemma_runs_one, lemma_runs_split, lemma_runs_two, like_row, newest,
    column_of, of_kind, runs, set_in, small, some_of, without_nul, with_row, StoreV,
};
use super::wording::{lemma_list_queries, lemma_update};
use crate::cortex::tallies;
use crate::db::queries::{
    any_changed, assignments, by_ids_query, counts_of, embeddings_of, escaped, given, law_search_is_literal,
    lemma_tally_at, lemma_tally_names, light_nodes_of, list_query, literally, names_differ, nodes_of, pattern_meaning,
    search_pattern, text_of_first, update_statement, Wild, COUNT_BY_KIND, GET_ALL_EMBEDDINGS, GET_ALL_NODES_LIGHT,
    GET_META, SEARCH_NODES, SET_META,
};
use crate::db::rows::{
    embedding_of, embedding_row, law_all_rows_are_read, light_node_row, named_count_row, node_row, read_all, Read,
};
use crate::db::{rows_of, statement, Exchange, ReplyV, RowV, SqlV};
use crate::types::{lemma_node_kind_name_reads_back, node_kind_name, NodeKind, NodeV, RealBits};

verus! {

/// A node is stored as it says.
pub open spec fn is_stored(store: StoreV, n: NodeV) -> bool {
    store.nodes.contains_key(n.id) && node_row(store.nodes[n.id]) == Read::<NodeV>::Ok(n)
}

/// A node is stored as it says, but for its embedding.
pub open spec fn is_stored_light(store: StoreV, n: NodeV) -> bool {
    store.nodes.contains_key(n.id) && light_node_row(store.nodes[n.id].take(10)) == Read::<NodeV>::Ok(n)
}

/// No two nodes of a list have the same ID.
pub open spec fn ids_differ(nodes: Seq<NodeV>) -> bool {
    forall|i: int, j: int| 0 <= i < j < nodes.len() ==> (#[trigger] nodes[i]).id != (#[trigger] nodes[j]).id
}

/// A node with an ID is in a list.
pub open spec fn lists_id(nodes: Seq<NodeV>, id: Seq<char>) -> bool {
    exists|i: int| 0 <= i < nodes.len() && (#[trigger] nodes[i]).id == id
}

/// Rows of nodes, each once, are read as the nodes that are stored.
pub proof fn lemma_rows_are_nodes(store: StoreV, reply: ReplyV, rows: Seq<Seq<SqlV>>, found: Seq<NodeV>)
    requires
        tidy(store),
        answers(reply, rows),
        rows.no_duplicates(),
        nodes_of(reply) == Read::<Seq<NodeV>>::Ok(found),
        forall|i: int|
            0 <= i < rows.len() ==> exists|x: Seq<char>| #[trigger]
                store.nodes.contains_key(x) && #[trigger] rows[i] == store.nodes[x],
    ensures
        found.len() == rows.len(),
        ids_differ(found),
        forall|i: int|
            0 <= i < found.len() ==> is_stored(store, #[trigger] found[i]) && rows[i] == store.nodes[found[i].id],
        forall|x: Seq<char>| #[trigger]
            store.nodes.contains_key(x) ==> (rows.contains(store.nodes[x]) <==> lists_id(found, x)),
{
    let views = rows_of(reply)->Ok_0;
    law_all_rows_are_read(views, |row: Seq<SqlV>| node_row(row));
    assert forall|i: int| 0 <= i < found.len() implies is_stored(store, #[trigger] found[i]) && rows[i]
        == store.nodes[found[i].id] by {
        assert(views[i] == RowV::Ok(rows[i]));
        let x = choose|x: Seq<char>| #[trigger] store.nodes.contains_key(x) && rows[i] == store.nodes[x];
        assert(rows[i][0] == SqlV::Text(x));
    }
    assert forall|x: Seq<char>| #[trigger] store.nodes.contains_key(x) implies (rows.contains(store.nodes[x])
        <==> lists_id(found, x)) by {
        if rows.contains(store.nodes[x]) {
            let i = rows.index_of(store.nodes[x]);
            assert(is_stored(store, found[i]));
            assert(store.nodes[x][0] == SqlV::Text(x));
            assert(found[i].id == x);
        }
        if lists_id(found, x) {
            let i = choose|i: int| 0 <= i < found.len() && (#[trigger] found[i]).id == x;
            assert(rows[i] == store.nodes[x]);
        }
    }
}

/// Rows of nodes without their embeddings, each once, are read as the nodes that are
/// stored.
proof fn lemma_rows_are_light_nodes(store: StoreV, reply: ReplyV, rows: Seq<Seq<SqlV>>, found: Seq<NodeV>)
    requires
        tidy(store),
        answers(reply, rows),
        rows.no_duplicates(),
        light_nodes_of(reply) == Read::<Seq<NodeV>>::Ok(found),
        forall|i: int| 0 <= i < rows.len() ==> holds_light(store, #[trigger] rows[i]),
    ensures
        found.len() == rows.len(),
        ids_differ(found),
        forall|i: int|
            0 <= i < found.len() ==> {
                &&& is_stored_light(store, #[trigger] found[i])
                &&& rows[i] == store.nodes[found[i].id].take(10)
                &&& found[i].created_at == rows[i][7]->Integer_0
            },
        forall|x: Seq<char>| #[trigger]
            store.nodes.contains_key(x) ==> (rows.contains(store.nodes[x].take(10)) <==> lists_id(found, x)),
{
    let views = rows_of(reply)->Ok_0;
    law_all_rows_are_read(views, |row: Seq<SqlV>| light_node_row(row));
    assert forall|i: int| 0 <= i < found.len() implies {
        &&& is_stored_light(store, #[trigger] found[i])
        &&& rows[i] == store.nodes[found[i].id].take(10)
        &&& found[i].created_at == rows[i][7]->Integer_0
    } by {
        assert(views[i] == RowV::Ok(rows[i]));
        assert(holds_light(store, rows[i]));
        let x = choose|x: Seq<char>| #[trigger] store.nodes.contains_key(x) && rows[i] == store.nodes[x].take(10);
        assert(rows[i][0] == store.nodes[x][0]);
    }
    assert forall|x: Seq<char>| #[trigger] store.nodes.contains_key(x) implies (rows.contains(
        store.nodes[x].take(10),
    ) <==> lists_id(found, x)) by {
        let row = store.nodes[x].take(10);
        if rows.contains(row) {
            let i = rows.index_of(row);
            assert(is_stored_light(store, found[i]));
            assert(row[0] == store.nodes[x][0]);
            assert(store.nodes[found[i].id].take(10)[0] == store.nodes[found[i].id][0]);
            assert(found[i].id == x);
        }
        if lists_id(found, x) {
            let i = choose|i: int| 0 <= i < found.len() && (#[trigger] found[i]).id == x;
            assert(rows[i] == row);
        }
    }
}

/// The nodes with one of some IDs are found: those that are stored, each once, as
/// they are stored.
pub proof fn law_nodes_are_found_by_their_ids(store: StoreV, ids: Seq<Seq<char>>, e: Exchange, found: Seq<NodeV>)
    requires
        tidy(store),
        if ids.len() == 0 {
            found.len() == 0
        } else {
            &&& e.statement == by_ids_query(ids)
            &&& nodes_of(e.reply) == Read::<Seq<NodeV>>::Ok(found)
            &&& does(store, e, store)
        },
    ensures
        ids_differ(found),
        forall|i: int|
            0 <= i < found.len() ==> is_stored(store, #[trigger] found[i]) && ids.contains(found[i].id),
        forall|x: Seq<char>| #[trigger] store.nodes.contains_key(x) && ids.contains(x) ==> lists_id(found, x),
{
    if ids.len() > 0 {
        lemma_list_queries(ids);
        let among = |row: Seq<SqlV>|
            exists|x: Seq<char>| #[trigger] store.nodes.contains_key(x) && ids.contains(x) && row == store.nodes[x];
        let rows = choose|rows: Seq<Seq<SqlV>>| #[trigger]
            answers(e.reply, rows) && rows.no_duplicates() && forall|row: Seq<SqlV>| #[trigger]
                rows.contains(row) <==> among(row);
        assert forall|i: int| 0 <= i < rows.len() implies exists|x: Seq<char>| #[trigger]
            store.nodes.contains_key(x) && #[trigger] rows[i] == store.nodes[x] by {
            assert(rows.contains(rows[i]));
        }
        lemma_rows_are_nodes(store, e.reply, rows, found);
        assert forall|i: int| 0 <= i < found.len() implies is_stored(store, #[trigger] found[i]) && ids.contains(
            found[i].id,
        ) by {
            assert(rows.contains(rows[i]));
            let x = choose|x: Seq<char>| #[trigger]
                store.nodes.contains_key(x) && ids.contains(x) && rows[i] == store.nodes[x];
            assert(store.nodes[x][0] == SqlV::Text(x));
            assert(store.nodes[found[i].id][0] == SqlV::Text(found[i].id));
        }
        assert forall|x: Seq<char>| #[trigger] store.nodes.contains_key(x) && ids.contains(x) implies lists_id(
            found,
            x,
        ) by {
            assert(among(store.nodes[x]));
        }
    }
}

/// A node is stored, and of a kind where one is asked for.
pub open spec fn listed_as(store: StoreV, kind: Option<NodeKind>, id: Seq<char>) -> bool {
    store.nodes.contains_key(id) && (kind matches Some(k) ==> store.nodes[id][1] == SqlV::Text(node_kind_name(k)))
}

/// The newest nodes are listed, of one kind or of all, each once and newest first: as
/// many as there are, up to the limit, and none is left out that is newer than one
/// that is listed.
pub proof fn law_newest_nodes_are_listed(
    store: StoreV,
    kind: Option<NodeKind>,
    limit: usize,
    e: Exchange,
    found: Seq<NodeV>,
)
    requires
        tidy(store),
        limit <= i64::MAX,
        e.statement == list_query(kind, limit),
        light_nodes_of(e.reply) == Read::<Seq<NodeV>>::Ok(found),
        does(store, e, store),
    ensures
        found.len() <= limit,
        ids_differ(found),
        forall|i: int|
            0 <= i < found.len() ==> is_stored_light(store, #[trigger] found[i]) && listed_as(store, kind, found[i].id),
        forall|i: int, j: int|
            0 <= i < j < found.len() ==> (#[trigger] found[i]).created_at >= (#[trigger] found[j]).created_at,
        forall|x: Seq<char>| #[trigger]
            listed_as(store, kind, x) && !lists_id(found, x) ==> found.len() == limit && forall|i: int|
                0 <= i < found.len() ==> (#[trigger] found[i]).created_at >= store.nodes[x][7]->Integer_0,
{
    let s = e.statement;
    let among = match kind {
        Some(k) => |row: Seq<SqlV>| row[1] == s.params[0] && holds_light(store, row),
        None => |row: Seq<SqlV>| holds_light(store, row),
    };
    let rows = choose|rows: Seq<Seq<SqlV>>| #[trigger] answers(e.reply, rows) && newest(rows, among, limit as i64);
    assert forall|i: int| 0 <= i < rows.len() implies holds_light(store, #[trigger] rows[i]) by {
        assert(among(rows[i]));
    }
    lemma_rows_are_light_nodes(store, e.reply, rows, found);
    assert forall|i: int| 0 <= i < found.len() implies is_stored_light(store, #[trigger] found[i]) && listed_as(
        store,
        kind,
        found[i].id,
    ) by {
        assert(among(rows[i]));
        assert(store.nodes[found[i].id].take(10)[1] == store.nodes[found[i].id][1]);
    }
    assert forall|i: int, j: int| 0 <= i < j < found.len() implies (#[trigger] found[i]).created_at >= (
    #[trigger] found[j]).created_at by {
        assert(rows[i][7]->Integer_0 >= rows[j][7]->Integer_0);
    }
    assert forall|x: Seq<char>| #[trigger]
        listed_as(store, kind, x) && !lists_id(found, x) implies found.len() == limit && forall|i: int|
        0 <= i < found.len() ==> (#[trigger] found[i]).created_at >= store.nodes[x][7]->Integer_0 by {
        let row = store.nodes[x].take(10);
        assert(row[1] == store.nodes[x][1]);
        assert(row[7] == store.nodes[x][7]);
        assert(holds_light(store, row));
        assert(among(row) && !rows.contains(row));
        assert forall|i: int| 0 <= i < found.len() implies (#[trigger] found[i]).created_at
            >= store.nodes[x][7]->Integer_0 by {
            assert(rows[i][7]->Integer_0 >= row[7]->Integer_0);
        }
    }
}

/// Every node is loaded without its embedding, each once.
pub proof fn law_every_node_is_loaded(store: StoreV, e: Exchange, found: Seq<NodeV>)
    requires
        tidy(store),
        e.statement == statement(GET_ALL_NODES_LIGHT@, Seq::empty()),
        light_nodes_of(e.reply) == Read::<Seq<NodeV>>::Ok(found),
        does(store, e, store),
    ensures
        ids_differ(found),
        forall|i: int| 0 <= i < found.len() ==> is_stored_light(store, #[trigger] found[i]),
        forall|x: Seq<char>| #[trigger] store.nodes.contains_key(x) ==> lists_id(found, x),
{
    let among = |row: Seq<SqlV>| holds_light(store, row);
    let rows = choose|rows: Seq<Seq<SqlV>>| #[trigger]
        answers(e.reply, rows) && rows.no_duplicates() && forall|row: Seq<SqlV>| #[trigger]
            rows.contains(row) <==> among(row);
    assert forall|i: int| 0 <= i < rows.len() implies holds_light(store, #[trigger] rows[i]) by {
        assert(rows.contains(rows[i]));
    }
    lemma_rows_are_light_nodes(store, e.reply, rows, found);
    assert forall|x: Seq<char>| #[trigger] store.nodes.contains_key(x) implies lists_id(found, x) by {
        assert(among(store.nodes[x].take(10)));
    }
}

/// The embeddings that are loaded are those of the nodes that have one, each once.
pub proof fn law_every_embedding_is_loaded(store: StoreV, e: Exchange, found: Seq<(Seq<char>, Seq<u8>)>)
    requires
        tidy(store),
        e.statement == statement(GET_ALL_EMBEDDINGS@, Seq::empty()),
        embeddings_of(e.reply) == Read::<Seq<(Seq<char>, Seq<u8>)>>::Ok(found),
        does(store, e, store),
    ensures
        forall|i: int, j: int| 0 <= i < j < found.len() ==> (#[trigger] found[i]).0 != (#[trigger] found[j]).0,
        forall|x: Seq<char>, bytes: Seq<u8>| #[trigger]
            found.contains((x, bytes)) <==> store.nodes.contains_key(x) && store.nodes[x][10] is Blob && bytes
                == embedding_of(store.nodes[x][10]->Blob_0),
{
    let among = |row: Seq<SqlV>|
        exists|x: Seq<char>| #[trigger]
            store.nodes.contains_key(x) && !(store.nodes[x][10] is Null) && row == seq![
                store.nodes[x][0],
                store.nodes[x][10],
            ];
    let rows = choose|rows: Seq<Seq<SqlV>>| #[trigger]
        answers(e.reply, rows) && rows.no_duplicates() && forall|row: Seq<SqlV>| #[trigger]
            rows.contains(row) <==> among(row);
    let views = rows_of(e.reply)->Ok_0;
    law_all_rows_are_read(views, |row: Seq<SqlV>| embedding_row(row));
    assert forall|i: int| 0 <= i < found.len() implies {
        &&& store.nodes.contains_key((#[trigger] found[i]).0)
        &&& rows[i] == seq![store.nodes[found[i].0][0], store.nodes[found[i].0][10]]
        &&& store.nodes[found[i].0][10] is Blob
        &&& found[i].1 == embedding_of(store.nodes[found[i].0][10]->Blob_0)
    } by {
        assert(views[i] == RowV::Ok(rows[i]));
        assert(rows.contains(rows[i]));
        let x = choose|x: Seq<char>| #[trigger]
            store.nodes.contains_key(x) && !(store.nodes[x][10] is Null) && rows[i] == seq![
                store.nodes[x][0],
                store.nodes[x][10],
            ];
        assert(rows[i][0] == SqlV::Text(x));
        assert(rows[i][1] == store.nodes[x][10]);
    }
    assert forall|x: Seq<char>, bytes: Seq<u8>| #[trigger]
        found.contains((x, bytes)) <==> store.nodes.contains_key(x) && store.nodes[x][10] is Blob && bytes
            == embedding_of(store.nodes[x][10]->Blob_0) by {
        if found.contains((x, bytes)) {
            let i = found.index_of((x, bytes));
            assert(store.nodes.contains_key(found[i].0));
        }
        if store.nodes.contains_key(x) && store.nodes[x][10] is Blob && bytes == embedding_of(
            store.nodes[x][10]->Blob_0,
        ) {
            let row = seq![store.nodes[x][0], store.nodes[x][10]];
            assert(among(row));
            assert(rows.contains(row));
            let i = rows.index_of(row);
            assert(views[i] == RowV::Ok(rows[i]));
            assert(row[0] == SqlV::Text(x) && row[1] == store.nodes[x][10]);
            assert(found[i] == (x, bytes));
        }
    }
    assert forall|i: int, j: int| 0 <= i < j < found.len() implies (#[trigger] found[i]).0 != (#[trigger] found[j]).0 by {
        assert(rows[i] != rows[j]);
    }
}

/// A row of nodes after some of its columns were set.
spec fn updated(
    row: Seq<SqlV>,
    kind: Option<NodeKind>,
    title: Option<Seq<char>>,
    body: Option<Seq<char>>,
    importance: Option<RealBits>,
    trust_score: Option<RealBits>,
) -> Seq<SqlV> {
    let row1 = match kind {
        Some(k) => row.update(1, SqlV::Text(node_kind_name(k))),
        None => row,
    };
    let row2 = match title {
        Some(t) => row1.update(2, SqlV::Text(t)),
        None => row1,
    };
    let row3 = match body {
        Some(b) => row2.update(3, SqlV::Text(b)),
        None => row2,
    };
    let row4 = match importance {
        Some(x) => row3.update(4, SqlV::Real(x)),
        None => row3,
    };
    match trust_score {
        Some(x) => row4.update(5, SqlV::Real(x)),
        None => row4,
    }
}

/// The columns that can be set have different names.
proof fn lemma_columns_have_places()
    ensures
        column_of("kind"@) == 1,
        column_of("title"@) == 2,
        column_of("body"@) == 3,
        column_of("importance"@) == 4,
        column_of("trust_score"@) == 5,
{
    reveal_strlit("kind");
    reveal_strlit("title");
    reveal_strlit("body");
    reveal_strlit("importance");
    reveal_strlit("trust_score");
    assert("kind"@.len() == 4 && "kind"@[0] == 'k');
    assert("title"@.len() == 5);
    assert("body"@.len() == 4 && "body"@[0] == 'b');
    assert("importance"@.len() == 10);
    assert("trust_score"@.len() == 11);
}

/// To set some columns and at most one more is to set that one last.
proof fn lemma_set_one_more(row: Seq<SqlV>, sets: Seq<(Seq<char>, SqlV)>, column: Seq<char>, value: Option<SqlV>)
    ensures
        set_in(row, sets + given(column, value)) == match value {
            Some(v) => set_in(row, sets).update(column_of(column), v),
            None => set_in(row, sets),
        },
        (forall|i: int| 0 <= i < sets.len() ==> column_of((#[trigger] sets[i]).0) > 0) && column_of(column) > 0
            ==> forall|i: int|
            0 <= i < (sets + given(column, value)).len() ==> column_of(
                (#[trigger] (sets + given(column, value))[i]).0,
            ) > 0,
{
    let all = sets + given(column, value);
    match value {
        Some(v) => {
            assert(all.drop_last() =~= sets);
            assert(all.last() == (column, v));
        },
        None => {
            assert(all =~= sets);
        },
    }
}

/// The columns that an update names are those that are given.
proof fn lemma_sets_what_is_given(
    row: Seq<SqlV>,
    kind: Option<NodeKind>,
    title: Option<Seq<char>>,
    body: Option<Seq<char>>,
    importance: Option<RealBits>,
    trust_score: Option<RealBits>,
)
    ensures
        set_in(row, assignments(kind, title, body, importance, trust_score)) == updated(
            row,
            kind,
            title,
            body,
            importance,
            trust_score,
        ),
        forall|i: int|
            0 <= i < assignments(kind, title, body, importance, trust_score).len() ==> column_of(
                (#[trigger] assignments(kind, title, body, importance, trust_score)[i]).0,
            ) > 0,
{
    lemma_columns_have_places();
    let kind_value = match kind {
        Some(k) => Some(SqlV::Text(node_kind_name(k))),
        None => None,
    };
    let title_value = match title {
        Some(t) => Some(SqlV::Text(t)),
        None => None,
    };
    let body_value = match body {
        Some(b) => Some(SqlV::Text(b)),
        None => None,
    };
    let importance_value = match importance {
        Some(x) => Some(SqlV::Real(x)),
        None => None,
    };
    let trust_value = match trust_score {
        Some(x) => Some(SqlV::Real(x)),
        None => None,
    };
    let none = Seq::<(Seq<char>, SqlV)>::empty();
    let one = given("kind"@, kind_value);
    let two = one + given("title"@, title_value);
    let three = two + given("body"@, body_value);
    let four = three + given("importance"@, importance_value);
    assert(none + one =~= one);
    lemma_set_one_more(row, none, "kind"@, kind_value);
    lemma_set_one_more(row, one, "title"@, title_value);
    lemma_set_one_more(row, two, "body"@, body_value);
    lemma_set_one_more(row, three, "importance"@, importance_value);
    lemma_set_one_more(row, four, "trust_score"@, trust_value);
    assert(assignments(kind, title, body, importance, trust_score) =~= four + given("trust_score"@, trust_value));
}

/// An update sets the fields that are given, of that one node, and changes nothing
/// else. It tells whether there is such a node.
pub proof fn law_update_sets_what_is_given(
    before: StoreV,
    e: Exchange,
    after: StoreV,
    id: Seq<char>,
    kind: Option<NodeKind>,
    title: Option<Seq<char>>,
    body: Option<Seq<char>>,
    importance: Option<RealBits>,
    trust_score: Option<RealBits>,
)
    requires
        tidy(before),
        assignments(kind, title, body, importance, trust_score).len() > 0,
        e.statement == update_statement(assignments(kind, title, body, importance, trust_score), id),
        e.reply matches ReplyV::Changed(Ok(_)),
        does(before, e, after),
    ensures
        any_changed(e.reply) == Read::<bool>::Ok(before.nodes.contains_key(id)),
        after == (StoreV { nodes: after.nodes, ..before }),
        after.nodes.dom() == before.nodes.dom(),
        forall|x: Seq<char>|
            before.nodes.contains_key(x) && x != id ==> #[trigger] after.nodes[x] == before.nodes[x],
        before.nodes.contains_key(id) && node_row(before.nodes[id]) is Ok ==> node_row(after.nodes[id]) == Read::<
            NodeV,
        >::Ok(
            {
                let node = node_row(before.nodes[id])->Ok_0;
                NodeV {
                    kind: kind.unwrap_or(node.kind),
                    title: title.unwrap_or(node.title),
                    body: if body is Some {
                        body
                    } else {
                        node.body
                    },
                    importance: importance.unwrap_or(node.importance),
                    trust_score: trust_score.unwrap_or(node.trust_score),
                    ..node
                }
            },
        ),
{
    let row = before.nodes[id];
    let new = updated(row, kind, title, body, importance, trust_score);
    let sets = assignments(kind, title, body, importance, trust_score);
    lemma_update(sets, id);
    lemma_columns_have_places();
    lemma_sets_what_is_given(row, kind, title, body, importance, trust_score);
    assert(after == with_row(before, id, new));
    if before.nodes.contains_key(id) {
        assert(after.nodes.dom() =~= before.nodes.dom());
        assert(row.len() == 11);
        if kind is Some {
            lemma_node_kind_name_reads_back(kind->0);
        }
        assert(new[0] == row[0]);
        assert(new[6] == row[6] && new[7] == row[7] && new[8] == row[8] && new[9] == row[9] && new[10] == row[10]);
    }
}

/// A text holds another one somewhere, capital and small letters of ASCII being the
/// same.
pub open spec fn holds_text(text: Seq<char>, query: Seq<char>) -> bool {
    exists|n: int| 0 <= n <= text.len() && #[trigger] starts_alike(text.skip(n), query)
}

/// A text starts with another one, capital and small letters of ASCII being the same.
pub open spec fn starts_alike(text: Seq<char>, query: Seq<char>) -> bool {
    query.len() <= text.len() && forall|j: int|
        0 <= j < query.len() ==> small(#[trigger] text[j]) == small(query[j])
}

/// The pattern of a text and anything after it fits what starts with the text.
proof fn lemma_literal_fits(query: Seq<char>, text: Seq<char>)
    ensures
        fits(literally(query) + seq![Wild::Any], text) <==> starts_alike(text, query),
    decreases query.len(),
{
    let parts = literally(query) + seq![Wild::Any];
    if query.len() == 0 {
        assert(parts =~= seq![Wild::Any]);
        assert(parts.skip(1) =~= Seq::<Wild>::empty());
        let rest = text.skip(text.len() as int);
        assert(rest.len() == 0);
        assert(fits(parts.skip(1), rest));
    } else {
        let after = literally(query.skip(1)) + seq![Wild::Any];
        assert(parts[0] == Wild::Exactly(seq![query[0]]));
        assert(parts.skip(1) =~= after);
        lemma_literal_fits(query.skip(1), text.skip(1));
        if text.len() > 0 {
            if starts_alike(text, query) {
                assert(small(text[0]) == small(query[0]));
                assert forall|j: int| 0 <= j < query.skip(1).len() implies small(#[trigger] text.skip(1)[j]) == small(
                    query.skip(1)[j],
                ) by {
                    assert(small(text[j + 1]) == small(query[j + 1]));
                }
            }
            if small(text[0]) == small(query[0]) && starts_alike(text.skip(1), query.skip(1)) {
                assert forall|j: int| 0 <= j < query.len() implies small(#[trigger] text[j]) == small(query[j]) by {
                    if j > 0 {
                        assert(small(text.skip(1)[j - 1]) == small(query.skip(1)[j - 1]));
                    }
                }
            }
        }
    }
}

/// The pattern of a search fits exactly the texts that hold what is searched for.
pub proof fn law_search_pattern_fits_what_holds_the_text(query: Seq<char>, text: Seq<char>)
    requires
        !query.contains('\\'),
    ensures
        fits(pattern_meaning(search_pattern(query)), text) <==> holds_text(text, query),
{
    law_search_is_literal(query);
    let parts = pattern_meaning(search_pattern(query));
    let rest = literally(query) + seq![Wild::Any];
    assert(parts =~= seq![Wild::Any] + rest);
    assert(parts.skip(1) =~= rest);
    assert forall|n: int| 0 <= n <= text.len() implies fits(rest, #[trigger] text.skip(n)) == starts_alike(
        text.skip(n),
        query,
    ) by {
        lemma_literal_fits(query, text.skip(n));
    }
    if holds_text(text, query) {
        let n = choose|n: int| 0 <= n <= text.len() && #[trigger] starts_alike(text.skip(n), query);
        assert(fits(parts.skip(1), text.skip(n)));
    }
}

/// A node is stored, and its title or its body holds a text.
pub open spec fn mentions(store: StoreV, query: Seq<char>, id: Seq<char>) -> bool {
    let row = store.nodes[id];
    store.nodes.contains_key(id) && (row[2] is Text && holds_text(row[2]->Text_0, query) || row[3] is Text && holds_text(
        row[3]->Text_0,
        query,
    ))
}

/// The IDs of the nodes that mention a text.
pub open spec fn mentioning(store: StoreV, query: Seq<char>) -> Set<Seq<char>> {
    store.nodes.dom().filter(|x: Seq<char>| mentions(store, query, x))
}

/// A search finds nodes whose title or body holds the text, each once: as many as
/// there are up to the limit, so all of them where they are no more than that.
pub proof fn law_search_finds_what_holds_the_text(
    store: StoreV,
    query: Seq<char>,
    limit: i64,
    e: Exchange,
    found: Seq<NodeV>,
)
    requires
        tidy(store),
        without_nul(store),
        !query.contains('\\'),
        !query.contains('\0'),
        limit >= 0,
        e.statement == statement(SEARCH_NODES@, seq![SqlV::Text(search_pattern(query)), SqlV::Integer(limit)]),
        nodes_of(e.reply) == Read::<Seq<NodeV>>::Ok(found),
        does(store, e, store),
    ensures
        found.len() <= limit,
        ids_differ(found),
        forall|i: int|
            0 <= i < found.len() ==> is_stored(store, #[trigger] found[i]) && mentions(store, query, found[i].id),
        forall|x: Seq<char>| #[trigger] mentions(store, query, x) && !lists_id(found, x) ==> found.len() == limit,
        store.nodes.dom().finite() && mentioning(store, query).len() <= limit ==> forall|x: Seq<char>| #[trigger]
            mentions(store, query, x) ==> lists_id(found, x),
{
    let pattern = search_pattern(query);
    assert(!pattern.contains('\0')) by {
        lemma_no_nul_in_pattern(query);
    }
    assert(e.statement.params[0] == SqlV::Text(pattern));
    let among = |row: Seq<SqlV>| like_row(store, pattern, row);
    let rows = choose|rows: Seq<Seq<SqlV>>| #[trigger] answers(e.reply, rows) && some_of(rows, among, limit);
    assert forall|row: Seq<SqlV>| #[trigger]
        store.nodes.contains_value(row) implies exists|x: Seq<char>| #[trigger]
        store.nodes.contains_key(x) && row == store.nodes[x] by {
        let x = choose|x: Seq<char>| store.nodes.dom().contains(x) && store.nodes[x] == row;
        assert(store.nodes.contains_key(x));
    }
    assert forall|x: Seq<char>| #[trigger] store.nodes.contains_key(x) implies (mentions(store, query, x) <==> like_row(
        store,
        pattern,
        store.nodes[x],
    )) by {
        let row = store.nodes[x];
        assert(store.nodes.contains_value(row));
        if row[2] is Text {
            law_search_pattern_fits_what_holds_the_text(query, row[2]->Text_0);
        }
        if row[3] is Text {
            law_search_pattern_fits_what_holds_the_text(query, row[3]->Text_0);
        }
    }
    assert forall|i: int| 0 <= i < rows.len() implies exists|x: Seq<char>| #[trigger]
        store.nodes.contains_key(x) && #[trigger] rows[i] == store.nodes[x] by {
        assert(among(rows[i]));
        assert(store.nodes.contains_value(rows[i]));
    }
    lemma_rows_are_nodes(store, e.reply, rows, found);
    assert forall|i: int| 0 <= i < found.len() implies is_stored(store, #[trigger] found[i]) && mentions(
        store,
        query,
        found[i].id,
    ) by {
        assert(among(rows[i]));
    }
    assert forall|x: Seq<char>| #[trigger] mentions(store, query, x) && !lists_id(found, x) implies found.len()
        == limit by {
        assert(store.nodes.contains_key(x));
        assert(among(store.nodes[x]) && !rows.contains(store.nodes[x]));
    }
    if store.nodes.dom().finite() && mentioning(store, query).len() <= limit {
        assert forall|x: Seq<char>| #[trigger] mentions(store, query, x) implies lists_id(found, x) by {
            if !lists_id(found, x) {
                let ids = Seq::new(found.len(), |i: int| found[i].id);
                assert(ids.no_duplicates()) by {
                    assert forall|i: int, j: int| 0 <= i < ids.len() && 0 <= j < ids.len() && i != j implies ids[i]
                        != ids[j] by {
                        if i < j {
                            assert(found[i].id != found[j].id);
                        } else {
                            assert(found[j].id != found[i].id);
                        }
                    }
                }
                ids.unique_seq_to_set();
                let all = mentioning(store, query);
                assert(all.finite());
                assert forall|y: Seq<char>| ids.to_set().contains(y) implies all.remove(x).contains(y) by {
                    let i = ids.index_of(y);
                    assert(found[i].id == y);
                    assert(mentions(store, query, found[i].id));
                }
                vstd::set_lib::lemma_len_subset(ids.to_set(), all.remove(x));
                assert(all.contains(x));
            }
        }
    }
}

/// The pattern of a search has no character in it that ends a text in C where the
/// text has none.
pub proof fn lemma_no_nul_in_pattern(query: Seq<char>)
    requires
        !query.contains('\0'),
    ensures
        !search_pattern(query).contains('\0'),
{
    lemma_no_nul_in_escaped(query);
    let pattern = search_pattern(query);
    let middle = escaped(query);
    assert forall|i: int| 0 <= i < pattern.len() implies pattern[i] != '\0' by {
        if 0 < i <= middle.len() {
            assert(pattern[i] == middle[i - 1]);
            assert(middle.contains(middle[i - 1]));
        }
    }
}

/// Escaping adds backslashes alone.
proof fn lemma_no_nul_in_escaped(query: Seq<char>)
    requires
        !query.contains('\0'),
    ensures
        !escaped(query).contains('\0'),
    decreases query.len(),
{
    let all = escaped(query);
    if query.len() > 0 {
        let rest = query.drop_last();
        assert(!rest.contains('\0')) by {
            if rest.contains('\0') {
                assert(query[rest.index_of('\0')] == '\0');
            }
        }
        lemma_no_nul_in_escaped(rest);
        let before = escaped(rest);
        assert(query.contains(query.last())) by {
            assert(query[query.len() - 1] == query.last());
        }
        assert forall|i: int| 0 <= i < all.len() implies all[i] != '\0' by {
            if i < before.len() {
                assert(all[i] == before[i]);
                assert(before.contains(before[i]));
            }
        }
    }
}

/// Nodes that are counted by kind are counted under the names of their kinds.
pub proof fn lemma_kinds_are_counted(store: StoreV, e: Exchange, by_kind: Map<Seq<char>, i64>)
    requires
        e.statement == statement(COUNT_BY_KIND@, Seq::empty()),
        counts_of(e.reply) == Read::<Map<Seq<char>, i64>>::Ok(by_kind),
        does(store, e, store),
    ensures
        forall|name: Seq<char>| #[trigger]
            by_kind.contains_key(name) ==> 0 < by_kind[name] == of_kind(store, SqlV::Text(name)).len(),
        forall|name: Seq<char>|
            0 < (#[trigger] of_kind(store, SqlV::Text(name))).len() <= i64::MAX ==> by_kind.contains_key(name),
{
    let reply = e.reply;
    let among = |row: Seq<SqlV>|
        row.len() == 2 && row[1] is Integer && row[1]->Integer_0 > 0 && row[1]->Integer_0 == of_kind(
            store,
            row[0],
        ).len();
    let rows = choose|rows: Seq<Seq<SqlV>>| #[trigger]
        answers(reply, rows) && rows.no_duplicates() && forall|row: Seq<SqlV>| #[trigger]
            rows.contains(row) <==> among(row);
    let views = rows_of(reply)->Ok_0;
    let read = |row: Seq<SqlV>| named_count_row(row);
    law_all_rows_are_read(views, read);
    let counts = read_all(views, read)->Ok_0;
    assert forall|i: int| 0 <= i < counts.len() implies {
        &&& #[trigger] rows[i] == seq![SqlV::Text(counts[i].0), SqlV::Integer(counts[i].1)]
        &&& among(rows[i])
    } by {
        assert(views[i] == RowV::Ok(rows[i]));
        assert(rows.contains(rows[i]));
        assert(rows[i] =~= seq![SqlV::Text(counts[i].0), SqlV::Integer(counts[i].1)]);
    }
    assert(names_differ(counts)) by {
        assert forall|i: int, j: int| 0 <= i < j < counts.len() implies #[trigger] counts[i].0 != #[trigger]
            counts[j].0 by {
            assert(rows[i] != rows[j]);
            assert(among(rows[i]) && among(rows[j]));
        }
    }
    assert forall|name: Seq<char>| #[trigger] by_kind.contains_key(name) implies 0 < by_kind[name] == of_kind(
        store,
        SqlV::Text(name),
    ).len() by {
        lemma_tally_names(counts, name);
        let i = choose|i: int| 0 <= i < counts.len() && #[trigger] counts[i].0 == name;
        lemma_tally_at(counts, i);
        assert(among(rows[i]));
    }
    assert forall|name: Seq<char>|
        0 < (#[trigger] of_kind(store, SqlV::Text(name))).len() <= i64::MAX implies by_kind.contains_key(name) by {
        let row = seq![SqlV::Text(name), SqlV::Integer(of_kind(store, SqlV::Text(name)).len() as i64)];
        assert(among(row));
        assert(rows.contains(row));
        let i = rows.index_of(row);
        assert(rows[i] == seq![SqlV::Text(counts[i].0), SqlV::Integer(counts[i].1)]);
        assert(row[0] == SqlV::Text(name));
        lemma_tally_names(counts, name);
        assert(counts[i].0 == name);
    }
}

/// The graph is counted as it is stored: all nodes, all edges, and the nodes of each
/// kind that there is.
pub proof fn law_graph_is_counted(
    store: StoreV,
    log: Seq<Exchange>,
    after: StoreV,
    nodes: i64,
    edges: i64,
    by_kind: Map<Seq<char>, i64>,
)
    requires
        tallies(log, Ok((nodes, edges, by_kind))),
        runs(store, log, after),
    ensures
        after == store,
        nodes == store.nodes.len(),
        edges == store.edges.len(),
        forall|name: Seq<char>| #[trigger]
            by_kind.contains_key(name) ==> 0 < by_kind[name] == of_kind(store, SqlV::Text(name)).len(),
        forall|name: Seq<char>|
            0 < (#[trigger] of_kind(store, SqlV::Text(name))).len() <= i64::MAX ==> by_kind.contains_key(name),
{
    let one = lemma_runs_split(store, log, after, 1);
    lemma_runs_one(store, log.take(1), one);
    assert(log.take(1)[0] == log[0]);
    let rest = log.skip(1);
    let two = lemma_runs_two(one, rest, after);
    assert(rest[0] == log[1]);
    assert(rest[1] == log[2]);
    let n = choose|n: i64| #[trigger] counts_to(log[0].reply, n) && n == store.nodes.len();
    let m = choose|m: i64| #[trigger] counts_to(log[1].reply, m) && m == store.edges.len();
    assert(nodes == n);
    assert(edges == m);
    lemma_kinds_are_counted(store, log[2], by_kind);
}

/// A value that was set is read back, as long as none was set for the same key since;
/// a key without a value gives none. The values of other keys stay.
pub proof fn law_set_value_is_read_back(
    before: StoreV,
    setting: Exchange,
    middle: StoreV,
    key: Seq<char>,
    value: Seq<char>,
    later: StoreV,
    reading: Exchange,
    after: StoreV,
)
    requires
        setting.statement == statement(SET_META@, seq![SqlV::Text(key), SqlV::Text(value)]),
        setting.reply matches ReplyV::Changed(Ok(_)),
        does(before, setting, middle),
        later.meta.contains_key(key) ==> later.meta[key] == middle.meta[key],
        reading.statement == statement(GET_META@, seq![SqlV::Text(key)]),
        reading.reply matches ReplyV::Rows(Ok(_)),
        does(later, reading, after),
    ensures
        middle == (StoreV { meta: before.meta.insert(key, value), ..before }),
        after == later,
        text_of_first(reading.reply) == Read::<Option<Seq<char>>>::Ok(
            if later.meta.contains_key(key) {
                Some(value)
            } else {
                None
            },
        ),
{
}

}
