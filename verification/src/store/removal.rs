//! What is left in a store that keeps to its statements after nodes were deleted.

use vstd::prelude::*;

use super::{lemma_runs_none, lemma_runs_one, lemma_runs_split, lemma_runs_two, rows_with, runs, StoreV};
use crate::db::queries::{any_changed, bulk_delete_statements, delete_statements, deleted_nodes};
use crate::db::rows::Read;
use crate::db::{changed, completed, ran, went_through, Exchange, SqlV};
use crate::types::ContradictionV;

verus! {

/// An edge leaves or enters one of some nodes.
pub open spec fn edge_at(edge: Seq<SqlV>, ids: Set<Seq<char>>) -> bool {
    exists|x: Seq<char>| #[trigger] ids.contains(x) && (edge[1] == SqlV::Text(x) || edge[2] == SqlV::Text(x))
}

/// A store without some nodes, and without the edges and contradictions that refer to
/// them.
pub open spec fn without(store: StoreV, ids: Set<Seq<char>>) -> StoreV {
    StoreV {
        nodes: store.nodes.remove_keys(ids),
        edges: store.edges.filter(|edge: Seq<SqlV>| !edge_at(edge, ids)),
        contradictions: store.contradictions.filter(
            |c: ContradictionV| !ids.contains(c.node_a) && !ids.contains(c.node_b),
        ),
        ..store
    }
}

/// The statements that delete one node leave a store without it.
proof fn lemma_deleted_one(before: StoreV, log: Seq<Exchange>, after: StoreV, id: Seq<char>)
    requires
        went_through(log, delete_statements(id)),
        runs(before, log, after),
    ensures
        after == without(before, set![id]),
        changed(log.last().reply) == Read::<usize>::Ok(rows_with(before, id) as usize),
{
    let statements = delete_statements(id);
    let one = lemma_runs_split(before, log, after, 1);
    lemma_runs_one(before, log.take(1), one);
    assert(log.take(1)[0] == log[0]);
    assert(log[0].statement == statements[0]);
    let rest = log.skip(1);
    let two = lemma_runs_two(one, rest, after);
    assert(rest[0] == log[1]);
    assert(rest[1] == log[2]);
    assert(log[1].statement == statements[1]);
    assert(log[2].statement == statements[2]);
    let gone = set![id];
    let left = without(before, gone);
    assert(gone.contains(id));
    assert forall|edge: Seq<SqlV>| edge_at(edge, gone) <==> edge[1] == SqlV::Text(id) || edge[2] == SqlV::Text(id) by {
        if edge_at(edge, gone) {
            let x = choose|x: Seq<char>| #[trigger]
                gone.contains(x) && (edge[1] == SqlV::Text(x) || edge[2] == SqlV::Text(x));
            assert(x == id);
        }
    }
    assert(after.nodes =~= left.nodes);
    assert(after.edges =~= left.edges);
    assert(after.contradictions =~= left.contradictions);
    assert(two.nodes == before.nodes);
}

/// A node that was deleted is gone, with every edge and contradiction that refers to
/// it, and nothing else is. The deletion tells whether there was such a node.
pub proof fn law_deleted_node_is_gone(before: StoreV, log: Seq<Exchange>, after: StoreV, id: Seq<char>)
    requires
        ran(log, delete_statements(id), Ok(())),
        runs(before, log, after),
    ensures
        after == without(before, set![id]),
        any_changed(log.last().reply) == Read::<bool>::Ok(before.nodes.contains_key(id)),
{
    lemma_deleted_one(before, log, after, id);
}

/// The statements that delete some nodes are three for each.
proof fn lemma_three_each(ids: Seq<Seq<char>>)
    ensures
        bulk_delete_statements(ids).len() == 3 * ids.len(),
    decreases ids.len(),
{
    if ids.len() > 0 {
        lemma_three_each(ids.drop_last());
    }
}

/// Nodes that were deleted together are gone, with every edge and contradiction that
/// refers to one of them, and nothing else is. Those of them that were there are
/// counted, each once.
pub proof fn law_deleted_nodes_are_gone(before: StoreV, log: Seq<Exchange>, after: StoreV, ids: Seq<Seq<char>>)
    requires
        ran(log, bulk_delete_statements(ids), Ok(())),
        runs(before, log, after),
    ensures
        after == without(before, ids.to_set()),
        deleted_nodes(log) == ids.to_set().intersect(before.nodes.dom()).len(),
    decreases ids.len(),
{
    let statements = bulk_delete_statements(ids);
    let gone = ids.to_set();
    let left = without(before, gone);
    lemma_three_each(ids);
    if ids.len() == 0 {
        lemma_runs_none(before, log, after);
        assert(gone =~= Set::<Seq<char>>::empty());
        assert(after.nodes =~= left.nodes);
        assert(after.edges =~= left.edges);
        assert(after.contradictions =~= left.contradictions);
        assert(gone.intersect(before.nodes.dom()) =~= Set::<Seq<char>>::empty());
    } else {
        let k = log.len() - 3;
        let head = ids.drop_last();
        let id = ids.last();
        let middle = lemma_runs_split(before, log, after, k);
        let first = log.take(k);
        let last = log.skip(k);
        lemma_three_each(head);
        assert forall|i: int| 0 <= i < first.len() implies {
            &&& (#[trigger] first[i]).statement == bulk_delete_statements(head)[i]
            &&& first[i].reply is Changed
            &&& completed(first[i].reply) is Ok
        } by {
            assert(first[i] == log[i]);
        }
        assert forall|i: int| 0 <= i < last.len() implies {
            &&& (#[trigger] last[i]).statement == delete_statements(id)[i]
            &&& last[i].reply is Changed
            &&& completed(last[i].reply) is Ok
        } by {
            assert(last[i] == log[i + k]);
            assert(log[i + k].statement == statements[i + k]);
        }
        law_deleted_nodes_are_gone(before, first, middle, head);
        lemma_deleted_one(middle, last, after, id);
        assert(last.last() == log.last());
        let some = head.to_set();
        assert forall|x: Seq<char>| gone.contains(x) <==> some.contains(x) || x == id by {
            if ids.contains(x) {
                let i = ids.index_of(x);
                if i < head.len() {
                    assert(head[i] == x);
                }
            }
            if head.contains(x) {
                assert(ids[head.index_of(x)] == x);
            }
            assert(ids[ids.len() - 1] == id);
        }
        let only = set![id];
        assert forall|edge: Seq<SqlV>| edge_at(edge, gone) <==> edge_at(edge, some) || edge_at(edge, only) by {
            if edge_at(edge, gone) {
                let x = choose|x: Seq<char>| #[trigger]
                    gone.contains(x) && (edge[1] == SqlV::Text(x) || edge[2] == SqlV::Text(x));
                assert(some.contains(x) || only.contains(x));
            }
            if edge_at(edge, some) {
                let x = choose|x: Seq<char>| #[trigger]
                    some.contains(x) && (edge[1] == SqlV::Text(x) || edge[2] == SqlV::Text(x));
                assert(gone.contains(x));
            }
            if edge_at(edge, only) {
                let x = choose|x: Seq<char>| #[trigger]
                    only.contains(x) && (edge[1] == SqlV::Text(x) || edge[2] == SqlV::Text(x));
                assert(gone.contains(x));
            }
        }
        assert(after.nodes =~= left.nodes);
        assert(after.edges =~= left.edges);
        assert(after.contradictions =~= left.contradictions);
        let dom = before.nodes.dom();
        head.lemma_cardinality_of_set();
        if middle.nodes.contains_key(id) {
            assert(gone.intersect(dom) =~= some.intersect(dom).insert(id));
        } else {
            assert(gone.intersect(dom) =~= some.intersect(dom));
        }
    }
}

}
