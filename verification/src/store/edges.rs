//! What holds of edges, of neighbours and of the tree under a session in a store that
//! keeps to its statements.

use vstd::prelude::*;

use super::wording::lemma_list_queries;
use super::{
    answers, counts_to, does, doubts, hangs_under, lemma_runs_none, lemma_runs_one, lemma_runs_split, neighbors, runs,
    StoreV,
};
use crate::db::params::edge_cells;
use crate::db::queries::{
    edges_of, neighbors_of, COUNT_CONTRADICTIONS, GET_ALL_EDGES, GET_EDGES_FROM, GET_EDGES_TO, GET_NEIGHBORS,
    INSERT_EDGE,
};
use crate::db::rows::{
    count_of, edge_row, law_all_rows_are_read, law_edge_reads_back, neighbor_row, stored_edge_kind, text_column, Read,
};
use crate::db::tree::{
    answered_by, by_distance, children_of, children_query, fresh, hangs,
    law_session_tree_is_what_hangs_under_the_session, walks,
};
use crate::db::{rows_of, statement, Exchange, ReplyV, RowV, SqlV};
use crate::types::{EdgeKind, EdgeV};

verus! {

/// No two rows of edges have the same ID.
pub open spec fn edges_keyed(store: StoreV) -> bool {
    forall|a: Seq<SqlV>, b: Seq<SqlV>|
        #![trigger store.edges.contains(a), store.edges.contains(b)]
        store.edges.contains(a) && store.edges.contains(b) && a[0] == b[0] ==> a == b
}

/// An edge is stored as it says.
pub open spec fn edge_stored(store: StoreV, edge: EdgeV) -> bool {
    exists|row: Seq<SqlV>| #[trigger] store.edges.contains(row) && edge_row(row) == Read::<EdgeV>::Ok(edge)
}

/// No two edges of a list have the same ID.
pub open spec fn edge_ids_differ(edges: Seq<EdgeV>) -> bool {
    forall|i: int, j: int| 0 <= i < j < edges.len() ==> (#[trigger] edges[i]).id != (#[trigger] edges[j]).id
}

/// Rows of edges, each once, are read as the edges that are stored.
proof fn lemma_rows_are_edges(store: StoreV, reply: ReplyV, rows: Seq<Seq<SqlV>>, found: Seq<EdgeV>)
    requires
        edges_keyed(store),
        answers(reply, rows),
        rows.no_duplicates(),
        edges_of(reply) == Read::<Seq<EdgeV>>::Ok(found),
        forall|i: int| 0 <= i < rows.len() ==> store.edges.contains(#[trigger] rows[i]),
    ensures
        found.len() == rows.len(),
        edge_ids_differ(found),
        forall|i: int| 0 <= i < rows.len() ==> edge_row(#[trigger] rows[i]) == Read::<EdgeV>::Ok(found[i]),
{
    let views = rows_of(reply)->Ok_0;
    law_all_rows_are_read(views, |row: Seq<SqlV>| edge_row(row));
    assert forall|i: int| 0 <= i < rows.len() implies edge_row(#[trigger] rows[i]) == Read::<EdgeV>::Ok(found[i]) by {
        assert(views[i] == RowV::Ok(rows[i]));
    }
    assert forall|i: int, j: int| 0 <= i < j < found.len() implies (#[trigger] found[i]).id != (#[trigger] found[j]).id by {
        assert(rows[i] != rows[j]);
        assert(store.edges.contains(rows[i]) && store.edges.contains(rows[j]));
    }
}

/// The edges that leave a node are found: those that are stored, each once.
pub proof fn law_edges_from_a_node_are_found(store: StoreV, src: Seq<char>, e: Exchange, found: Seq<EdgeV>)
    requires
        edges_keyed(store),
        e.statement == statement(GET_EDGES_FROM@, seq![SqlV::Text(src)]),
        edges_of(e.reply) == Read::<Seq<EdgeV>>::Ok(found),
        does(store, e, store),
    ensures
        edge_ids_differ(found),
        forall|edge: EdgeV| #[trigger] found.contains(edge) <==> edge_stored(store, edge) && edge.src == src,
{
    let from = SqlV::Text(src);
    assert(e.statement.params[0] == from);
    let among = |row: Seq<SqlV>| store.edges.contains(row) && row[1] == from;
    let rows = choose|rows: Seq<Seq<SqlV>>| #[trigger]
        answers(e.reply, rows) && rows.no_duplicates() && forall|row: Seq<SqlV>| #[trigger]
            rows.contains(row) <==> among(row);
    assert forall|i: int| 0 <= i < rows.len() implies store.edges.contains(#[trigger] rows[i]) && rows[i][1] == from by {
        assert(rows.contains(rows[i]));
    }
    lemma_rows_are_edges(store, e.reply, rows, found);
    assert forall|edge: EdgeV| #[trigger] found.contains(edge) <==> edge_stored(store, edge) && edge.src == src by {
        if found.contains(edge) {
            let i = found.index_of(edge);
            assert(edge_row(rows[i]) == Read::<EdgeV>::Ok(edge));
        }
        if edge_stored(store, edge) && edge.src == src {
            let row = choose|row: Seq<SqlV>| #[trigger]
                store.edges.contains(row) && edge_row(row) == Read::<EdgeV>::Ok(edge);
            assert(rows.contains(row));
            let i = rows.index_of(row);
            assert(edge_row(rows[i]) == Read::<EdgeV>::Ok(found[i]));
        }
    }
}

/// The edges that enter a node are found: those that are stored, each once.
pub proof fn law_edges_to_a_node_are_found(store: StoreV, dst: Seq<char>, e: Exchange, found: Seq<EdgeV>)
    requires
        edges_keyed(store),
        e.statement == statement(GET_EDGES_TO@, seq![SqlV::Text(dst)]),
        edges_of(e.reply) == Read::<Seq<EdgeV>>::Ok(found),
        does(store, e, store),
    ensures
        edge_ids_differ(found),
        forall|edge: EdgeV| #[trigger] found.contains(edge) <==> edge_stored(store, edge) && edge.dst == dst,
{
    let to = SqlV::Text(dst);
    assert(e.statement.params[0] == to);
    let among = |row: Seq<SqlV>| store.edges.contains(row) && row[2] == to;
    let rows = choose|rows: Seq<Seq<SqlV>>| #[trigger]
        answers(e.reply, rows) && rows.no_duplicates() && forall|row: Seq<SqlV>| #[trigger]
            rows.contains(row) <==> among(row);
    assert forall|i: int| 0 <= i < rows.len() implies store.edges.contains(#[trigger] rows[i]) && rows[i][2] == to by {
        assert(rows.contains(rows[i]));
    }
    lemma_rows_are_edges(store, e.reply, rows, found);
    assert forall|edge: EdgeV| #[trigger] found.contains(edge) <==> edge_stored(store, edge) && edge.dst == dst by {
        if found.contains(edge) {
            let i = found.index_of(edge);
            assert(edge_row(rows[i]) == Read::<EdgeV>::Ok(edge));
        }
        if edge_stored(store, edge) && edge.dst == dst {
            let row = choose|row: Seq<SqlV>| #[trigger]
                store.edges.contains(row) && edge_row(row) == Read::<EdgeV>::Ok(edge);
            assert(rows.contains(row));
            let i = rows.index_of(row);
            assert(edge_row(rows[i]) == Read::<EdgeV>::Ok(found[i]));
        }
    }
}

/// Every edge is loaded, each once.
pub proof fn law_every_edge_is_loaded(store: StoreV, e: Exchange, found: Seq<EdgeV>)
    requires
        edges_keyed(store),
        e.statement == statement(GET_ALL_EDGES@, Seq::empty()),
        edges_of(e.reply) == Read::<Seq<EdgeV>>::Ok(found),
        does(store, e, store),
    ensures
        edge_ids_differ(found),
        forall|edge: EdgeV| #[trigger] found.contains(edge) <==> edge_stored(store, edge),
{
    let among = |row: Seq<SqlV>| store.edges.contains(row);
    let rows = choose|rows: Seq<Seq<SqlV>>| #[trigger]
        answers(e.reply, rows) && rows.no_duplicates() && forall|row: Seq<SqlV>| #[trigger]
            rows.contains(row) <==> among(row);
    assert forall|i: int| 0 <= i < rows.len() implies store.edges.contains(#[trigger] rows[i]) by {
        assert(rows.contains(rows[i]));
    }
    lemma_rows_are_edges(store, e.reply, rows, found);
    assert forall|edge: EdgeV| #[trigger] found.contains(edge) <==> edge_stored(store, edge) by {
        if found.contains(edge) {
            let i = found.index_of(edge);
            assert(edge_row(rows[i]) == Read::<EdgeV>::Ok(edge));
        }
        if edge_stored(store, edge) {
            let row = choose|row: Seq<SqlV>| #[trigger]
                store.edges.contains(row) && edge_row(row) == Read::<EdgeV>::Ok(edge);
            assert(rows.contains(row));
            let i = rows.index_of(row);
            assert(edge_row(rows[i]) == Read::<EdgeV>::Ok(found[i]));
        }
    }
}

/// An edge that was stored is found at the node that it leaves and at the one that it
/// enters, as long as its row is there.
pub proof fn law_inserted_edge_is_found(
    before: StoreV,
    insertion: Exchange,
    middle: StoreV,
    edge: EdgeV,
    later: StoreV,
    leaving: Exchange,
    from: Seq<EdgeV>,
    entering: Exchange,
    to: Seq<EdgeV>,
)
    requires
        edges_keyed(before),
        insertion.statement == statement(INSERT_EDGE@, edge_cells(edge)),
        insertion.reply matches ReplyV::Changed(Ok(n)) && n > 0,
        does(before, insertion, middle),
        edges_keyed(later),
        middle.edges.subset_of(later.edges),
        leaving.statement == statement(GET_EDGES_FROM@, seq![SqlV::Text(edge.src)]),
        edges_of(leaving.reply) == Read::<Seq<EdgeV>>::Ok(from),
        does(later, leaving, later),
        entering.statement == statement(GET_EDGES_TO@, seq![SqlV::Text(edge.dst)]),
        edges_of(entering.reply) == Read::<Seq<EdgeV>>::Ok(to),
        does(later, entering, later),
    ensures
        edges_keyed(middle),
        from.contains(edge),
        to.contains(edge),
{
    let row = edge_cells(edge);
    law_edge_reads_back(edge);
    assert(middle.edges.contains(row));
    assert(later.edges.contains(row));
    assert(edge_stored(later, edge));
    law_edges_from_a_node_are_found(later, edge.src, leaving, from);
    law_edges_to_a_node_are_found(later, edge.dst, entering, to);
}

/// The neighbours of a node are found along its edges in both directions, with the
/// kinds of the edges, and no others.
pub proof fn law_neighbors_are_found(store: StoreV, id: Seq<char>, e: Exchange, found: Seq<(Seq<char>, EdgeKind)>)
    requires
        e.statement == statement(GET_NEIGHBORS@, seq![SqlV::Text(id)]),
        neighbors_of(e.reply) == Read::<Seq<(Seq<char>, EdgeKind)>>::Ok(found),
        does(store, e, store),
    ensures
        forall|x: Seq<char>, kind: EdgeKind| #[trigger]
            found.contains((x, kind)) <==> exists|name: Seq<char>| #[trigger]
                neighbors(store, SqlV::Text(id), SqlV::Text(x), SqlV::Text(name)) && stored_edge_kind(name) == kind,
{
    let to = SqlV::Text(id);
    assert(e.statement.params[0] == to);
    let among = |row: Seq<SqlV>| row.len() == 2 && neighbors(store, to, row[0], row[1]);
    let rows = choose|rows: Seq<Seq<SqlV>>| #[trigger]
        answers(e.reply, rows) && rows.no_duplicates() && forall|row: Seq<SqlV>| #[trigger]
            rows.contains(row) <==> among(row);
    let views = rows_of(e.reply)->Ok_0;
    law_all_rows_are_read(views, |row: Seq<SqlV>| neighbor_row(row));
    assert forall|x: Seq<char>, kind: EdgeKind| #[trigger]
        found.contains((x, kind)) <==> exists|name: Seq<char>| #[trigger]
            neighbors(store, to, SqlV::Text(x), SqlV::Text(name)) && stored_edge_kind(name) == kind by {
        if found.contains((x, kind)) {
            let i = found.index_of((x, kind));
            assert(views[i] == RowV::Ok(rows[i]));
            assert(rows.contains(rows[i]));
            assert(neighbors(store, to, SqlV::Text(x), SqlV::Text(rows[i][1]->Text_0)));
        }
        if exists|name: Seq<char>| #[trigger]
            neighbors(store, to, SqlV::Text(x), SqlV::Text(name)) && stored_edge_kind(name) == kind {
            let name = choose|name: Seq<char>| #[trigger]
                neighbors(store, to, SqlV::Text(x), SqlV::Text(name)) && stored_edge_kind(name) == kind;
            let row = seq![SqlV::Text(x), SqlV::Text(name)];
            assert(row[0] == SqlV::Text(x) && row[1] == SqlV::Text(name));
            assert(among(row));
            assert(rows.contains(row));
            let i = rows.index_of(row);
            assert(views[i] == RowV::Ok(rows[i]));
            assert(found[i] == (x, kind));
        }
    }
}

/// The open contradictions of a node are counted.
pub proof fn law_contradictions_of_a_node_are_counted(store: StoreV, id: Seq<char>, e: Exchange, n: i64)
    requires
        e.statement == statement(COUNT_CONTRADICTIONS@, seq![SqlV::Text(id)]),
        count_of(e.reply) == Read::<i64>::Ok(n),
        does(store, e, store),
    ensures
        n == doubts(store, id).len(),
{
    let m = choose|m: i64| #[trigger] counts_to(e.reply, m) && m == doubts(store, id).len();
    assert(n == m);
}

/// The edges of a store that the walk over a session's tree follows: from a node to
/// the one that it is part of, or derives from.
pub open spec fn under_in(store: StoreV) -> spec_fn(Seq<char>, Seq<char>) -> bool {
    |x: Seq<char>, p: Seq<char>| hangs_under(store, SqlV::Text(x), SqlV::Text(p))
}

/// A query for children that is answered lists what hangs directly under the nodes
/// asked about.
proof fn lemma_children(store: StoreV, e: Exchange, parents: Seq<Seq<char>>)
    requires
        e.statement == children_query(parents),
        children_of(e.reply) is Ok,
        does(store, e, store),
    ensures
        forall|x: Seq<char>| #[trigger]
            children_of(e.reply)->Ok_0.contains(x) <==> exists|p: Seq<char>|
                parents.contains(p) && #[trigger] under_in(store)(x, p),
{
    lemma_list_queries(parents);
    let under = under_in(store);
    let found = children_of(e.reply)->Ok_0;
    let among = |row: Seq<SqlV>|
        row.len() == 1 && exists|p: Seq<char>| #[trigger]
            parents.contains(p) && hangs_under(store, row[0], SqlV::Text(p));
    let rows = choose|rows: Seq<Seq<SqlV>>| #[trigger]
        answers(e.reply, rows) && rows.no_duplicates() && forall|row: Seq<SqlV>| #[trigger]
            rows.contains(row) <==> among(row);
    let views = rows_of(e.reply)->Ok_0;
    law_all_rows_are_read(views, |row: Seq<SqlV>| text_column(row, 0, "src"@));
    assert forall|x: Seq<char>| #[trigger] found.contains(x) <==> exists|p: Seq<char>|
        parents.contains(p) && #[trigger] under(x, p) by {
        if found.contains(x) {
            let i = found.index_of(x);
            assert(views[i] == RowV::Ok(rows[i]));
            assert(rows.contains(rows[i]));
            let p = choose|p: Seq<char>| #[trigger]
                parents.contains(p) && hangs_under(store, rows[i][0], SqlV::Text(p));
            assert(under(x, p));
        }
        if exists|p: Seq<char>| parents.contains(p) && #[trigger] under(x, p) {
            let p = choose|p: Seq<char>| parents.contains(p) && #[trigger] under(x, p);
            let row = seq![SqlV::Text(x)];
            assert(row[0] == SqlV::Text(x));
            assert(parents.contains(p) && hangs_under(store, row[0], SqlV::Text(p)));
            assert(among(row));
            assert(rows.contains(row));
            let i = rows.index_of(row);
            assert(views[i] == RowV::Ok(rows[i]));
            assert(found[i] == x);
        }
    }
}

/// A walk that ends well was answered by the edges of the store, and leaves it.
proof fn lemma_walk_is_answered(
    store: StoreV,
    visited: Seq<Seq<char>>,
    frontier: Seq<Seq<char>>,
    log: Seq<Exchange>,
    after: StoreV,
    found: Seq<Seq<char>>,
)
    requires
        walks(visited, frontier, log, Ok(found)),
        runs(store, log, after),
    ensures
        after == store,
        answered_by(under_in(store), log),
    decreases log.len(),
{
    if log.len() == 0 {
        lemma_runs_none(store, log, after);
    } else {
        let one = lemma_runs_split(store, log, after, 1);
        lemma_runs_one(store, log.take(1), one);
        assert(log.take(1)[0] == log[0]);
        let next = children_of(log.first().reply)->Ok_0;
        assert(log.skip(1) =~= log.drop_first());
        lemma_walk_is_answered(
            store,
            visited + fresh(visited, next),
            fresh(visited, next),
            log.drop_first(),
            after,
            found,
        );
        let under = under_in(store);
        assert forall|i: int, parents: Seq<Seq<char>>|
            0 <= i < log.len() && (#[trigger] log[i]).statement == #[trigger] children_query(parents) implies {
            &&& children_of(log[i].reply) is Ok
            &&& forall|x: Seq<char>|
                #[trigger] children_of(log[i].reply)->Ok_0.contains(x) <==> exists|p: Seq<char>|
                    parents.contains(p) && #[trigger] under(x, p)
        } by {
            if i == 0 {
                lemma_children(store, log[0], parents);
            } else {
                assert(log[i] == log.drop_first()[i - 1]);
            }
        }
    }
}

/// The tree of a session holds the session first, then exactly the nodes that hang
/// under it by the edges of the store at any depth, each once and by non-decreasing
/// distance.
pub proof fn law_session_tree_follows_the_edges(
    store: StoreV,
    session: Seq<char>,
    log: Seq<Exchange>,
    after: StoreV,
    found: Seq<Seq<char>>,
)
    requires
        walks(seq![session], seq![session], log, Ok(found)),
        runs(store, log, after),
    ensures
        after == store,
        found.len() > 0,
        found[0] == session,
        found.no_duplicates(),
        by_distance(under_in(store), session, found),
        forall|x: Seq<char>| #[trigger]
            found.contains(x) <==> exists|n: nat| hangs(under_in(store), session, x, n),
{
    lemma_walk_is_answered(store, seq![session], seq![session], log, after, found);
    law_session_tree_is_what_hangs_under_the_session(under_in(store), session, log, Ok(found));
}

}
