//! What edges and contradictions are for: what a store holds after they were stored,
//! and which of them an answer lists or counts.

use vstd::prelude::*;

use crate::db::params::edge_cells;
use crate::db::queries::{
    asks_for_edge, counts_by_kind, counts_doubts, counts_edges, counts_support, gets_all_edges,
    gets_contradictions_among, gets_edges_from, gets_edges_to, gets_neighbors, gets_open_contradictions,
    inserts_contradiction, inserts_edge, resolves_contradiction,
};
use crate::db::rows::stored_edge_kind;
use crate::db::{Exchange, ReplyV, SqlV};
use crate::store::edges::{
    edge_ids_differ, edge_stored, edges_keyed, law_edges_from_a_node_are_found, law_edges_to_a_node_are_found,
    law_every_edge_is_loaded, law_neighbors_are_found,
};
use crate::store::graph::law_contradictions_of_nodes_are_those_that_name_them;
use crate::store::nodes::lemma_kinds_are_counted;
use crate::store::{counts_to, does, linked, neighbors, of_kind, resolved_between, scored, supporters, StoreV};
use crate::types::{edge_kind_name, ContradictionV, EdgeKind, EdgeV, RealBits};

verus! {

/// An edge whose ID is new is stored with its two ends, its kind, its weight and its
/// time, and nothing else changes. One whose ID is known is not stored.
pub proof fn law_new_edge_is_stored(
    before: Seq<Exchange>,
    after: Seq<Exchange>,
    edge: EdgeV,
    store: StoreV,
    changed: StoreV,
)
    requires
        inserts_edge(before, after, edge, Ok(())),
        does(store, after.last(), changed),
    ensures
        after.last().reply == ReplyV::Changed(Ok(0)) ==> changed == store,
        after.last().reply != ReplyV::Changed(Ok(0)) ==> changed == (StoreV {
            edges: store.edges.insert(
                seq![
                    SqlV::Text(edge.id),
                    SqlV::Text(edge.src),
                    SqlV::Text(edge.dst),
                    SqlV::Text(edge_kind_name(edge.kind)),
                    SqlV::Real(edge.weight),
                    SqlV::Integer(edge.created_at),
                    match edge.metadata {
                        Some(text) => SqlV::Text(text),
                        None => SqlV::Null,
                    },
                ],
            ),
            ..store
        }),
{
    assert(edge_cells(edge) =~= seq![
        SqlV::Text(edge.id),
        SqlV::Text(edge.src),
        SqlV::Text(edge.dst),
        SqlV::Text(edge_kind_name(edge.kind)),
        SqlV::Real(edge.weight),
        SqlV::Integer(edge.created_at),
        match edge.metadata {
            Some(text) => SqlV::Text(text),
            None => SqlV::Null,
        },
    ]);
}

/// The edges that leave a node are found, each once, and so are those that enter it, and
/// all that there are.
pub proof fn law_edges_are_found_by_their_ends(
    store: StoreV,
    before: Seq<Exchange>,
    after: Seq<Exchange>,
    src: Seq<char>,
    leaving: Seq<EdgeV>,
    before2: Seq<Exchange>,
    after2: Seq<Exchange>,
    dst: Seq<char>,
    entering: Seq<EdgeV>,
    before3: Seq<Exchange>,
    after3: Seq<Exchange>,
    all: Seq<EdgeV>,
)
    requires
        edges_keyed(store),
        gets_edges_from(before, after, src, Ok(leaving)),
        does(store, after.last(), store),
        gets_edges_to(before2, after2, dst, Ok(entering)),
        does(store, after2.last(), store),
        gets_all_edges(before3, after3, Ok(all)),
        does(store, after3.last(), store),
    ensures
        edge_ids_differ(leaving),
        edge_ids_differ(entering),
        edge_ids_differ(all),
        forall|edge: EdgeV| #[trigger] all.contains(edge) <==> edge_stored(store, edge),
        forall|edge: EdgeV| #[trigger] leaving.contains(edge) <==> all.contains(edge) && edge.src == src,
        forall|edge: EdgeV| #[trigger] entering.contains(edge) <==> all.contains(edge) && edge.dst == dst,
{
    law_edges_from_a_node_are_found(store, src, after.last(), leaving);
    law_edges_to_a_node_are_found(store, dst, after2.last(), entering);
    law_every_edge_is_loaded(store, after3.last(), all);
}

/// Whether there is an edge of a kind from one node to another is told, and nothing
/// changes.
pub proof fn law_edge_is_asked_for_by_its_ends_and_kind(
    before: Seq<Exchange>,
    after: Seq<Exchange>,
    src: Seq<char>,
    dst: Seq<char>,
    kind: EdgeKind,
    told: bool,
    store: StoreV,
    unchanged: StoreV,
)
    requires
        asks_for_edge(before, after, src, dst, kind, Ok(told)),
        does(store, after.last(), unchanged),
    ensures
        unchanged == store,
        told <==> exists|row: Seq<SqlV>| #[trigger]
            store.edges.contains(row) && row[1] == SqlV::Text(src) && row[2] == SqlV::Text(dst) && row[3] == SqlV::Text(
                edge_kind_name(kind),
            ),
{
    let there = linked(store, SqlV::Text(src), SqlV::Text(dst), SqlV::Text(edge_kind_name(kind)));
    let n = choose|n: i64| #[trigger] counts_to(after.last().reply, n) && (n > 0 <==> there);
}

/// The neighbours of a node are the nodes at the other end of its edges, in either
/// direction, each with the kind of the edge.
pub proof fn law_neighbors_are_at_the_other_end(
    before: Seq<Exchange>,
    after: Seq<Exchange>,
    id: Seq<char>,
    found: Seq<(Seq<char>, EdgeKind)>,
    store: StoreV,
    unchanged: StoreV,
)
    requires
        gets_neighbors(before, after, id, Ok(found)),
        does(store, after.last(), unchanged),
    ensures
        unchanged == store,
        forall|x: Seq<char>, kind: EdgeKind| #[trigger]
            found.contains((x, kind)) <==> exists|name: Seq<char>| #[trigger]
                neighbors(store, SqlV::Text(id), SqlV::Text(x), SqlV::Text(name)) && stored_edge_kind(name) == kind,
{
    law_neighbors_are_found(store, id, after.last(), found);
}

/// A contradiction is stored as an open pair of its two nodes, in their order, with its
/// time, unless the pair is known; nothing else changes.
pub proof fn law_contradiction_is_stored_open(
    before: Seq<Exchange>,
    after: Seq<Exchange>,
    node_a: Seq<char>,
    node_b: Seq<char>,
    now: i64,
    store: StoreV,
    changed: StoreV,
)
    requires
        inserts_contradiction(before, after, node_a, node_b, now, Ok(())),
        does(store, after.last(), changed),
    ensures
        after.last().reply == ReplyV::Changed(Ok(0)) ==> changed == store,
        after.last().reply != ReplyV::Changed(Ok(0)) ==> changed == (StoreV {
            contradictions: store.contradictions.insert(
                ContradictionV { node_a, node_b, detected_at: now, resolved: false },
            ),
            ..store
        }),
{
}

/// A contradiction that is resolved is no longer open; every other one stays as it was.
pub proof fn law_resolved_contradiction_is_not_open(
    before: Seq<Exchange>,
    after: Seq<Exchange>,
    node_a: Seq<char>,
    node_b: Seq<char>,
    store: StoreV,
    changed: StoreV,
)
    requires
        resolves_contradiction(before, after, node_a, node_b, Ok(())),
        does(store, after.last(), changed),
    ensures
        changed == (StoreV { contradictions: changed.contradictions, ..store }),
        forall|c: ContradictionV| #[trigger]
            store.contradictions.contains(c) && !(c.node_a == node_a && c.node_b == node_b)
                ==> changed.contradictions.contains(c),
        forall|c: ContradictionV| #[trigger]
            store.contradictions.contains(c) && c.node_a == node_a && c.node_b == node_b
                ==> changed.contradictions.contains(ContradictionV { resolved: true, ..c }),
        forall|c: ContradictionV| #[trigger]
            changed.contradictions.contains(c) && c.node_a == node_a && c.node_b == node_b ==> c.resolved,
        forall|c: ContradictionV| #[trigger]
            changed.contradictions.contains(c) ==> store.contradictions.contains(c) || store.contradictions.contains(
                ContradictionV { resolved: false, ..c },
            ),
{
    let change = |c: ContradictionV| resolved_between(c, node_a, node_b);
    assert(changed.contradictions == store.contradictions.map(change));
    assert forall|c: ContradictionV| #[trigger] store.contradictions.contains(c) implies changed.contradictions.contains(
        change(c),
    ) by {}
    assert forall|c: ContradictionV| #[trigger] changed.contradictions.contains(c) implies (c.node_a == node_a && c.node_b
        == node_b ==> c.resolved) && (store.contradictions.contains(c) || store.contradictions.contains(
        ContradictionV { resolved: false, ..c },
    )) by {
        let d = choose|d: ContradictionV| store.contradictions.contains(d) && c == change(d);
        if !d.resolved {
            assert(d == (ContradictionV { resolved: false, ..d }));
            if c != d {
                assert((ContradictionV { resolved: false, ..c }) == d);
            }
        }
    }
    assert forall|c: ContradictionV| #[trigger]
        store.contradictions.contains(c) && !(c.node_a == node_a && c.node_b == node_b) implies changed.contradictions.contains(
        c,
    ) by {
        assert(change(c) == c);
    }
    assert forall|c: ContradictionV| #[trigger]
        store.contradictions.contains(c) && c.node_a == node_a && c.node_b == node_b implies changed.contradictions.contains(
        ContradictionV { resolved: true, ..c },
    ) by {
        assert(change(c) == (ContradictionV { resolved: true, ..c }));
    }
}

/// The open contradictions are listed, each once, and so are those of some nodes: the open
/// ones that name one of them on either side. Without nodes there are none.
pub proof fn law_open_contradictions_are_listed(
    store: StoreV,
    before: Seq<Exchange>,
    after: Seq<Exchange>,
    all: Seq<ContradictionV>,
    before2: Seq<Exchange>,
    after2: Seq<Exchange>,
    ids: Seq<Seq<char>>,
    found: Seq<ContradictionV>,
)
    requires
        gets_open_contradictions(before, after, Ok(all)),
        does(store, after.last(), store),
        gets_contradictions_among(before2, after2, ids, Ok(found)),
        ids.len() > 0 ==> does(store, after2.last(), store),
    ensures
        all.no_duplicates(),
        forall|c: ContradictionV| #[trigger] all.contains(c) <==> store.contradictions.contains(c) && !c.resolved,
        found.no_duplicates(),
        forall|c: ContradictionV| #[trigger]
            found.contains(c) <==> store.contradictions.contains(c) && !c.resolved && (ids.contains(c.node_a)
                || ids.contains(c.node_b)),
        ids.len() == 0 ==> after2 == before2,
{
    law_contradictions_of_nodes_are_those_that_name_them(store, after.last(), all, ids, after2.last(), found);
}

/// The edges are counted, the open contradictions that name a node on either side are
/// counted, and of the edges that support a node those are counted that leave a node
/// which is trusted more than a score. None of it changes anything.
pub proof fn law_evidence_is_counted(
    store: StoreV,
    before: Seq<Exchange>,
    after: Seq<Exchange>,
    edges: i64,
    before2: Seq<Exchange>,
    after2: Seq<Exchange>,
    id: Seq<char>,
    doubts: i64,
    before3: Seq<Exchange>,
    after3: Seq<Exchange>,
    above: RealBits,
    support: i64,
)
    requires
        counts_edges(before, after, Ok(edges)),
        does(store, after.last(), store),
        counts_doubts(before2, after2, id, Ok(doubts)),
        does(store, after2.last(), store),
        counts_support(before3, after3, id, above, Ok(support)),
        does(store, after3.last(), store),
        scored(store),
        above <= 0x7ff0_0000_0000_0000,
    ensures
        edges == store.edges.len(),
        doubts == store.contradictions.filter(
            |c: ContradictionV| !c.resolved && (c.node_a == id || c.node_b == id),
        ).len(),
        support == store.edges.filter(
            |edge: Seq<SqlV>|
                edge[2] == SqlV::Text(id) && edge[3] == SqlV::Text("supports"@) && edge[1] is Text
                    && store.nodes.contains_key(edge[1]->Text_0) && store.nodes[edge[1]->Text_0][5]->Real_0 > above,
        ).len(),
{
    assert(exists|n: i64| #[trigger] counts_to(after.last().reply, n) && n == store.edges.len());
    assert(exists|n: i64| #[trigger]
        counts_to(after2.last().reply, n) && n == crate::store::doubts(store, id).len());
    assert(supporters(store, SqlV::Text(id), above) =~= store.edges.filter(
        |edge: Seq<SqlV>|
            edge[2] == SqlV::Text(id) && edge[3] == SqlV::Text("supports"@) && edge[1] is Text
                && store.nodes.contains_key(edge[1]->Text_0) && store.nodes[edge[1]->Text_0][5]->Real_0 > above,
    ));
    assert(exists|n: i64| #[trigger]
        counts_to(after3.last().reply, n) && n == supporters(store, SqlV::Text(id), above).len());
}

/// Nodes are counted by kind: every kind that there are nodes of has its number, and no
/// other has one.
pub proof fn law_nodes_are_counted_by_kind(
    before: Seq<Exchange>,
    after: Seq<Exchange>,
    by_kind: Map<Seq<char>, i64>,
    store: StoreV,
    unchanged: StoreV,
    name: Seq<char>,
)
    requires
        counts_by_kind(before, after, Ok(by_kind)),
        does(store, after.last(), unchanged),
    ensures
        unchanged == store,
        ({
            let named = store.nodes.dom().filter(|x: Seq<char>| store.nodes[x][1] == SqlV::Text(name));
            &&& by_kind.contains_key(name) ==> 0 < by_kind[name] == named.len()
            &&& 0 < named.len() <= i64::MAX ==> by_kind.contains_key(name)
        }),
{
    lemma_kinds_are_counted(store, after.last(), by_kind);
    assert(of_kind(store, SqlV::Text(name)) == store.nodes.dom().filter(
        |x: Seq<char>| store.nodes[x][1] == SqlV::Text(name),
    ));
}

}
