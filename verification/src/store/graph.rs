//! What holds of the graph in a store that keeps to its statements.

use vstd::prelude::*;

use super::wording::lemma_list_queries;
use super::{
    accessed, answers, contradiction_cells, counts_to, does, lemma_answers_read, lemma_runs_none, lemma_runs_one,
    lemma_runs_split, lemma_runs_two, linked, newest, one_edge_each, open_among, pending, recent, runs, StoreV,
};
use crate::cortex::{identifies, soul_node};
use crate::db::params::{edge_cells, node_cells};
use crate::db::queries::{
    any_counted, contradictions_of, ids_of, light_nodes_of, node_of, nodes_of, open_contradictions_of, touch_statements,
    touches, unresolved_query, FIND_BY_PREFIX, GET_ALL_UNRESOLVED, GET_PENDING_NOTIFICATIONS, GET_RECENT_SESSION_NODES,
    INSERT_CONTRADICTION, INSERT_EDGE, INSERT_NODE,
};
use crate::db::rows::{
    all_of, contradiction_row, law_all_rows_are_read, law_node_reads_back, light_node_row, node_row,
    open_contradiction_row, text_column, Read,
};
use crate::db::{completed, rows_of, statement, went_through, Exchange, ReplyV, RowV, SqlV};
use crate::linking::{
    considered, considers, lookup, negation_with, recording, records, relates, CandidateV, LinkActionV, LinkSeeds,
    SuspicionV,
};
use crate::types::{
    edge_kind_name, lemma_node_kind_name_reads_back, new_edge, ContradictionV, EdgeKind, NodeKind, NodeV, RealBits,
};

verus! {

/// A node that was stored is found by its ID, as it was stored, as long as its row
/// is as it was. A node without a row is not found.
pub proof fn law_inserted_node_is_read_back(
    before: StoreV,
    insertion: Exchange,
    middle: StoreV,
    node: NodeV,
    later: StoreV,
    search: Exchange,
    after: StoreV,
)
    requires
        node.embedding matches Some(bytes) ==> bytes.len() % 4 == 0,
        insertion.statement == statement(INSERT_NODE@, node_cells(node)),
        insertion.reply matches ReplyV::Changed(Ok(_)),
        does(before, insertion, middle),
        later.nodes.contains_key(node.id) ==> later.nodes[node.id] == middle.nodes[node.id],
        search.statement == lookup(node.id),
        search.reply matches ReplyV::Rows(Ok(_)),
        does(later, search, after),
    ensures
        middle.nodes.contains_key(node.id),
        after == later,
        node_of(search.reply) == Read::<Option<NodeV>>::Ok(
            if later.nodes.contains_key(node.id) {
                Some(node)
            } else {
                None
            },
        ),
{
    law_node_reads_back(node);
}

/// There is a soul.
pub open spec fn has_soul(store: StoreV) -> bool {
    exists|row: Seq<SqlV>| #[trigger]
        store.nodes.contains_value(row) && row[1] == SqlV::Text("soul"@)
}

/// Whether an agent was found to have a soul is whether there is one.
pub proof fn lemma_soul_is_looked_for(store: StoreV, log: Seq<Exchange>, id: Seq<char>, now: i64, r: Read<()>)
    requires
        identifies(log, id, now, r),
        does(store, log[0], store),
        nodes_of(log[0].reply) is Ok,
    ensures
        nodes_of(log[0].reply)->Ok_0.len() > 0 <==> has_soul(store),
{
    let soul = SqlV::Text("soul"@);
    let among = |row: Seq<SqlV>| row[1] == soul && store.nodes.contains_value(row);
    let rows = choose|rows: Seq<Seq<SqlV>>| #[trigger]
        answers(log[0].reply, rows) && rows.no_duplicates() && forall|row: Seq<SqlV>| #[trigger]
            rows.contains(row) <==> among(row);
    law_all_rows_are_read(rows_of(log[0].reply)->Ok_0, |row: Seq<SqlV>| node_row(row));
    if rows.len() > 0 {
        assert(rows.contains(rows[0]));
        assert(store.nodes.contains_value(rows[0]));
    }
    if has_soul(store) {
        let row = choose|row: Seq<SqlV>| #[trigger] store.nodes.contains_value(row) && row[1] == soul;
        assert(rows.contains(row));
    }
}

/// An agent gets its soul once: where there is none one is stored, and where there
/// is one, as after the first time, nothing is stored.
pub proof fn law_identity_is_seeded_once(
    before: StoreV,
    log: Seq<Exchange>,
    middle: StoreV,
    id: Seq<char>,
    now: i64,
    later: StoreV,
    log2: Seq<Exchange>,
    after: StoreV,
    id2: Seq<char>,
    now2: i64,
    r2: Read<()>,
)
    requires
        identifies(log, id, now, Ok(())),
        runs(before, log, middle),
        later.nodes == middle.nodes,
        identifies(log2, id2, now2, r2),
        runs(later, log2, after),
    ensures
        middle.nodes == if has_soul(before) {
            before.nodes
        } else {
            before.nodes.insert(id, node_cells(soul_node(id, now)))
        },
        log2.len() == 1,
        after == later,
{
    let one = lemma_runs_split(before, log, middle, 1);
    lemma_runs_one(before, log.take(1), one);
    assert(log.take(1)[0] == log[0]);
    lemma_soul_is_looked_for(before, log, id, now, Ok(()));
    let rest = log.skip(1);
    if has_soul(before) {
        lemma_runs_none(one, rest, middle);
    } else {
        lemma_runs_one(one, rest, middle);
        assert(rest[0] == log[1]);
        let row = node_cells(soul_node(id, now));
        assert(middle.nodes.contains_key(id) && middle.nodes[id] == row);
        assert(middle.nodes.contains_value(row));
    }
    assert(has_soul(later)) by {
        let store = if has_soul(before) {
            before
        } else {
            middle
        };
        assert(has_soul(store));
        let row = choose|row: Seq<SqlV>| #[trigger]
            store.nodes.contains_value(row) && row[1] == SqlV::Text("soul"@);
        assert(later.nodes.contains_value(row));
    }
    let two = lemma_runs_split(later, log2, after, 1);
    lemma_runs_one(later, log2.take(1), two);
    assert(log2.take(1)[0] == log2[0]);
    if nodes_of(log2[0].reply) is Ok {
        lemma_soul_is_looked_for(later, log2, id2, now2, r2);
    }
    lemma_runs_none(two, log2.skip(1), after);
}

/// A contradiction reads back from its row.
pub proof fn lemma_contradiction_reads_back(c: ContradictionV)
    ensures
        contradiction_row(contradiction_cells(c)) == Read::<ContradictionV>::Ok(c),
        !c.resolved ==> open_contradiction_row(contradiction_cells(c)) == Read::<ContradictionV>::Ok(c),
{
}

/// An answer whose rows are those of some contradictions, each once, is read as
/// exactly those contradictions, each once.
pub proof fn lemma_contradictions_are_read(
    reply: ReplyV,
    holds: spec_fn(ContradictionV) -> bool,
    read: spec_fn(Seq<SqlV>) -> Read<ContradictionV>,
    found: Seq<ContradictionV>,
)
    requires
        exists|rows: Seq<Seq<SqlV>>| #[trigger]
            answers(reply, rows) && rows.no_duplicates() && forall|row: Seq<SqlV>| #[trigger]
                rows.contains(row) <==> exists|c: ContradictionV| holds(c) && row == #[trigger] contradiction_cells(c),
        forall|c: ContradictionV|
            holds(c) ==> read(#[trigger] contradiction_cells(c)) == Read::<ContradictionV>::Ok(c),
        all_of(reply, read) == Read::<Seq<ContradictionV>>::Ok(found),
    ensures
        found.no_duplicates(),
        forall|c: ContradictionV| #[trigger] found.contains(c) <==> holds(c),
{
    let rows = choose|rows: Seq<Seq<SqlV>>| #[trigger]
        answers(reply, rows) && rows.no_duplicates() && forall|row: Seq<SqlV>| #[trigger]
            rows.contains(row) <==> exists|c: ContradictionV| holds(c) && row == #[trigger] contradiction_cells(c);
    let values = Seq::new(
        rows.len(),
        |i: int| choose|c: ContradictionV| holds(c) && rows[i] == #[trigger] contradiction_cells(c),
    );
    assert forall|i: int| 0 <= i < values.len() implies holds(#[trigger] values[i]) && rows[i] == contradiction_cells(
        values[i],
    ) by {
        assert(rows.contains(rows[i]));
    }
    let cells = |c: ContradictionV| contradiction_cells(c);
    assert(values.map_values(cells) =~= rows);
    lemma_answers_read(reply, values, cells, read);
    assert(found == values);
    assert forall|c: ContradictionV| #[trigger] found.contains(c) <==> holds(c) by {
        if holds(c) {
            assert(rows.contains(contradiction_cells(c)));
            let i = rows.index_of(contradiction_cells(c));
            assert(read(contradiction_cells(values[i])) == Read::<ContradictionV>::Ok(values[i]));
            assert(read(contradiction_cells(c)) == Read::<ContradictionV>::Ok(c));
            assert(values[i] == c);
        }
    }
    assert forall|i: int, j: int| 0 <= i < found.len() && 0 <= j < found.len() && i != j implies found[i] != found[j] by {
        assert(rows[i] != rows[j]);
        assert(rows[i] == contradiction_cells(values[i]));
        assert(rows[j] == contradiction_cells(values[j]));
    }
}

/// The open contradictions of some nodes are those of all open contradictions that
/// name one of the nodes, each once. None of them is resolved.
pub proof fn law_contradictions_of_nodes_are_those_that_name_them(
    store: StoreV,
    every: Exchange,
    all: Seq<ContradictionV>,
    ids: Seq<Seq<char>>,
    some: Exchange,
    found: Seq<ContradictionV>,
)
    requires
        every.statement == statement(GET_ALL_UNRESOLVED@, Seq::empty()),
        open_contradictions_of(every.reply) == Read::<Seq<ContradictionV>>::Ok(all),
        does(store, every, store),
        if ids.len() == 0 {
            found.len() == 0
        } else {
            &&& some.statement == unresolved_query(ids)
            &&& contradictions_of(some.reply) == Read::<Seq<ContradictionV>>::Ok(found)
            &&& does(store, some, store)
        },
    ensures
        all.no_duplicates(),
        forall|c: ContradictionV| #[trigger] all.contains(c) <==> store.contradictions.contains(c) && !c.resolved,
        found.no_duplicates(),
        forall|c: ContradictionV| #[trigger]
            found.contains(c) <==> all.contains(c) && (ids.contains(c.node_a) || ids.contains(c.node_b)),
{
    let open = |c: ContradictionV| store.contradictions.contains(c) && !c.resolved;
    let read_open = |row: Seq<SqlV>| open_contradiction_row(row);
    assert forall|c: ContradictionV| open(c) implies read_open(#[trigger] contradiction_cells(c)) == Read::<
        ContradictionV,
    >::Ok(c) by {
        lemma_contradiction_reads_back(c);
    }
    lemma_contradictions_are_read(every.reply, open, read_open, all);
    if ids.len() > 0 {
        lemma_list_queries(ids);
        let among = |c: ContradictionV| open_among(store, ids, c);
        let read = |row: Seq<SqlV>| contradiction_row(row);
        assert forall|c: ContradictionV| among(c) implies read(#[trigger] contradiction_cells(c)) == Read::<
            ContradictionV,
        >::Ok(c) by {
            lemma_contradiction_reads_back(c);
        }
        lemma_contradictions_are_read(some.reply, among, read, found);
    }
}

/// The rows of the nodes are filed under their IDs, and count accesses from zero.
pub open spec fn tidy(store: StoreV) -> bool {
    forall|id: Seq<char>| #[trigger]
        store.nodes.contains_key(id) ==> {
            let row = store.nodes[id];
            &&& row.len() == 11
            &&& row[0] == SqlV::Text(id)
            &&& row[6] is Integer
            &&& row[6]->Integer_0 >= 0
        }
}

/// So many more accesses to some nodes can be counted.
pub open spec fn room_for(store: StoreV, ids: Seq<Seq<char>>) -> bool {
    forall|x: Seq<char>| #[trigger]
        store.nodes.contains_key(x) && ids.contains(x) ==> store.nodes[x][6]->Integer_0 + ids.len() <= i64::MAX
}

/// Nodes that are touched are counted as accessed; the others stay as they were.
pub proof fn lemma_touched(before: StoreV, log: Seq<Exchange>, now: i64, ids: Seq<Seq<char>>, after: StoreV)
    requires
        tidy(before),
        room_for(before, ids),
        went_through(log, touch_statements(now, ids)),
        runs(before, log, after),
    ensures
        tidy(after),
        after.edges == before.edges,
        after.nodes.dom() == before.nodes.dom(),
        forall|x: Seq<char>|
            before.nodes.contains_key(x) && !ids.contains(x) ==> #[trigger] after.nodes[x] == before.nodes[x],
        forall|x: Seq<char>|
            before.nodes.contains_key(x) && ids.contains(x) ==> before.nodes[x][6]->Integer_0 < (
            #[trigger] after.nodes[x])[6]->Integer_0 <= before.nodes[x][6]->Integer_0 + ids.len(),
    decreases log.len(),
{
    let statements = touch_statements(now, ids);
    if log.len() == 0 {
        lemma_runs_none(before, log, after);
    } else {
        let k = log.len() - 1;
        let middle = lemma_runs_split(before, log, after, k);
        let head = ids.take(k);
        assert forall|i: int| 0 <= i < log.take(k).len() implies {
            &&& (#[trigger] log.take(k)[i]).statement == touch_statements(now, head)[i]
            &&& log.take(k)[i].reply is Changed
            &&& completed(log.take(k)[i].reply) is Ok
        } by {
            assert(log.take(k)[i] == log[i]);
        }
        let id = ids[k];
        assert forall|x: Seq<char>| ids.contains(x) <==> head.contains(x) || x == id by {
            if ids.contains(x) {
                let i = ids.index_of(x);
                if i < k {
                    assert(head[i] == x);
                }
            }
            if head.contains(x) {
                assert(ids[head.index_of(x)] == x);
            }
        }
        lemma_touched(before, log.take(k), now, head, middle);
        lemma_runs_one(middle, log.skip(k), after);
        assert(log.skip(k)[0] == log[k]);
        assert(log[k].statement == statements[k]);
        if before.nodes.contains_key(id) {
            assert(middle.nodes.contains_key(id));
            assert(accessed(middle.nodes[id], now, after.nodes[id]));
            assert(middle.nodes[id][6]->Integer_0 <= before.nodes[id][6]->Integer_0 + k);
        }
        assert forall|x: Seq<char>| #[trigger] after.nodes.contains_key(x) implies {
            let row = after.nodes[x];
            &&& row.len() == 11
            &&& row[0] == SqlV::Text(x)
            &&& row[6] is Integer
            &&& row[6]->Integer_0 >= 0
        } by {
            assert(middle.nodes.contains_key(x));
        }
        assert forall|x: Seq<char>|
            before.nodes.contains_key(x) && !ids.contains(x) implies #[trigger] after.nodes[x] == before.nodes[x] by {
            assert(middle.nodes.contains_key(x));
            assert(middle.nodes[x] == before.nodes[x]);
        }
        assert forall|x: Seq<char>|
            before.nodes.contains_key(x) && ids.contains(x) implies before.nodes[x][6]->Integer_0 < (
        #[trigger] after.nodes[x])[6]->Integer_0 <= before.nodes[x][6]->Integer_0 + ids.len() by {
            assert(middle.nodes.contains_key(x));
            if !head.contains(x) {
                assert(middle.nodes[x] == before.nodes[x]);
            } else {
                assert(middle.nodes[x][6]->Integer_0 > before.nodes[x][6]->Integer_0);
            }
        }
    }
}

/// What is said of a notification that was not delivered yet.
pub open spec fn pending_node(store: StoreV, session: Seq<char>, n: NodeV) -> bool {
    &&& pending(store, SqlV::Text(session), n.id)
    &&& light_node_row(store.nodes[n.id].take(10)) == Read::<NodeV>::Ok(n)
}

/// The notifications that are found pending are those that are: exactly the
/// notifications of the session that were never accessed, without their embeddings,
/// oldest first, and each once where none is part of the session twice.
pub proof fn law_pending_notifications_are_found(store: StoreV, e: Exchange, session: Seq<char>, found: Seq<NodeV>)
    requires
        tidy(store),
        e.statement == statement(GET_PENDING_NOTIFICATIONS@, seq![SqlV::Text(session)]),
        light_nodes_of(e.reply) == Read::<Seq<NodeV>>::Ok(found),
        does(store, e, store),
    ensures
        forall|n: NodeV| #[trigger] found.contains(n) <==> pending_node(store, session, n),
        forall|x: Seq<char>| #[trigger]
            pending(store, SqlV::Text(session), x) ==> exists|n: NodeV| #[trigger] found.contains(n) && n.id == x,
        forall|n: NodeV| #[trigger]
            found.contains(n) ==> n.kind == NodeKind::Notification && n.access_count == 0 && n.embedding is None,
        forall|i: int, j: int|
            0 <= i < j < found.len() ==> (#[trigger] found[i]).created_at <= (#[trigger] found[j]).created_at,
        one_edge_each(store, SqlV::Text(session)) ==> found.no_duplicates(),
{
    let to = SqlV::Text(session);
    assert(e.statement.params[0] == to);
    let rows = choose|rows: Seq<Seq<SqlV>>| #[trigger]
        answers(e.reply, rows) && (one_edge_each(store, to) ==> rows.no_duplicates()) && (forall|row: Seq<SqlV>| #[trigger]
            rows.contains(row) <==> exists|x: Seq<char>| #[trigger]
                pending(store, to, x) && row == store.nodes[x].take(10)) && forall|i: int, j: int|
            0 <= i < j < rows.len() ==> (#[trigger] rows[i])[7]->Integer_0 <= (#[trigger] rows[j])[7]->Integer_0;
    let views = rows_of(e.reply)->Ok_0;
    law_all_rows_are_read(views, |row: Seq<SqlV>| light_node_row(row));
    assert forall|i: int| 0 <= i < found.len() implies {
        &&& light_node_row(#[trigger] rows[i]) == Read::<NodeV>::Ok(found[i])
        &&& pending_node(store, session, found[i])
        &&& rows[i] == store.nodes[found[i].id].take(10)
    } by {
        assert(views[i] == RowV::Ok(rows[i]));
        assert(rows.contains(rows[i]));
        let x = choose|x: Seq<char>| #[trigger] pending(store, to, x) && rows[i] == store.nodes[x].take(10);
        assert(rows[i][0] == store.nodes[x][0]);
    }
    assert forall|x: Seq<char>| #[trigger] pending(store, to, x) implies exists|i: int|
        0 <= i < found.len() && #[trigger] rows[i] == store.nodes[x].take(10) && found[i].id == x by {
        let row = store.nodes[x].take(10);
        assert(rows.contains(row));
        let i = rows.index_of(row);
        assert(views[i] == RowV::Ok(rows[i]));
        assert(row[0] == store.nodes[x][0]);
    }
    assert forall|n: NodeV| #[trigger] found.contains(n) <==> pending_node(store, session, n) by {
        if found.contains(n) {
            let i = found.index_of(n);
            assert(light_node_row(rows[i]) is Ok);
        }
        if pending_node(store, session, n) {
            let i = choose|i: int|
                0 <= i < found.len() && #[trigger] rows[i] == store.nodes[n.id].take(10) && found[i].id == n.id;
            assert(found[i] == n);
        }
    }
    assert forall|x: Seq<char>| #[trigger] pending(store, to, x) implies exists|n: NodeV| #[trigger]
        found.contains(n) && n.id == x by {
        let i = choose|i: int|
            0 <= i < found.len() && #[trigger] rows[i] == store.nodes[x].take(10) && found[i].id == x;
        assert(found.contains(found[i]));
    }
    assert forall|n: NodeV| #[trigger] found.contains(n) implies n.kind == NodeKind::Notification && n.access_count == 0
        && n.embedding is None by {
        let row = store.nodes[n.id];
        assert(row.take(10)[1] == row[1]);
        assert(row.take(10)[6] == row[6]);
        lemma_node_kind_name_reads_back(NodeKind::Notification);
    }
    assert forall|i: int, j: int| 0 <= i < j < found.len() implies (#[trigger] found[i]).created_at <= (
    #[trigger] found[j]).created_at by {
        assert(light_node_row(rows[i]) is Ok);
        assert(light_node_row(rows[j]) is Ok);
    }
    if one_edge_each(store, to) {
        assert forall|i: int, j: int| 0 <= i < found.len() && 0 <= j < found.len() && i != j implies found[i]
            != found[j] by {
            assert(rows[i] != rows[j]);
        }
    }
}

/// Notifications that were touched are pending no longer, and the others still are:
/// where nothing else happened to the graph since, the notifications that are left
/// are those that were pending before without those that were touched.
pub proof fn law_delivered_notifications_are_not_pending(
    before: StoreV,
    first: Exchange,
    session: Seq<char>,
    found: Seq<NodeV>,
    log: Seq<Exchange>,
    now: i64,
    ids: Seq<Seq<char>>,
    middle: StoreV,
    later: StoreV,
    second: Exchange,
    left: Seq<NodeV>,
)
    requires
        tidy(before),
        first.statement == statement(GET_PENDING_NOTIFICATIONS@, seq![SqlV::Text(session)]),
        light_nodes_of(first.reply) == Read::<Seq<NodeV>>::Ok(found),
        does(before, first, before),
        room_for(before, ids),
        touches(log, now, ids, Ok(())),
        runs(before, log, middle),
        later.nodes == middle.nodes,
        second.statement == first.statement,
        light_nodes_of(second.reply) == Read::<Seq<NodeV>>::Ok(left),
        does(later, second, later),
    ensures
        forall|n: NodeV| #[trigger] left.contains(n) ==> !ids.contains(n.id),
        later.edges == middle.edges ==> forall|n: NodeV| #[trigger]
            left.contains(n) <==> found.contains(n) && !ids.contains(n.id),
{
    let one = lemma_runs_split(before, log, middle, 1);
    lemma_runs_one(before, log.take(1), one);
    assert(log.take(1)[0] == log[0]);
    lemma_touched(one, log.skip(1), now, ids, middle);
    assert(tidy(later)) by {
        assert forall|x: Seq<char>| #[trigger] later.nodes.contains_key(x) implies {
            let row = later.nodes[x];
            &&& row.len() == 11
            &&& row[0] == SqlV::Text(x)
            &&& row[6] is Integer
            &&& row[6]->Integer_0 >= 0
        } by {
            assert(middle.nodes.contains_key(x));
        }
    }
    law_pending_notifications_are_found(before, first, session, found);
    law_pending_notifications_are_found(later, second, session, left);
    let to = SqlV::Text(session);
    let kind = SqlV::Text("part_of"@);
    assert forall|n: NodeV| #[trigger] left.contains(n) implies !ids.contains(n.id) by {
        assert(pending(later, to, n.id));
        assert(before.nodes.contains_key(n.id));
        if ids.contains(n.id) {
            assert(middle.nodes[n.id][6]->Integer_0 > 0);
        }
    }
    if later.edges == middle.edges {
        assert forall|n: NodeV| #[trigger] left.contains(n) <==> found.contains(n) && !ids.contains(n.id) by {
            let x = n.id;
            if left.contains(n) {
                assert(before.nodes.contains_key(x));
                assert(middle.nodes[x] == before.nodes[x]);
                let edge = choose|edge: Seq<SqlV>| #[trigger]
                    later.edges.contains(edge) && edge[1] == later.nodes[x][0] && edge[2] == to && edge[3] == kind;
                assert(before.edges.contains(edge));
                assert(pending_node(before, session, n));
            }
            if found.contains(n) && !ids.contains(x) {
                assert(before.nodes.contains_key(x));
                assert(middle.nodes[x] == before.nodes[x]);
                let edge = choose|edge: Seq<SqlV>| #[trigger]
                    before.edges.contains(edge) && edge[1] == before.nodes[x][0] && edge[2] == to && edge[3] == kind;
                assert(later.edges.contains(edge));
                assert(pending_node(later, session, n));
            }
        }
    }
}

/// Exactly the IDs that start with a prefix are found, each once.
pub proof fn law_prefix_finds_what_starts_with_it(
    store: StoreV,
    e: Exchange,
    prefix: Seq<char>,
    found: Seq<Seq<char>>,
)
    requires
        e.statement == statement(FIND_BY_PREFIX@, seq![SqlV::Text(prefix)]),
        ids_of(e.reply) == Read::<Seq<Seq<char>>>::Ok(found),
        does(store, e, store),
    ensures
        found.no_duplicates(),
        forall|x: Seq<char>| #[trigger]
            found.contains(x) <==> store.nodes.contains_key(x) && prefix.is_prefix_of(x),
{
    let among = |row: Seq<SqlV>|
        exists|x: Seq<char>| #[trigger]
            store.nodes.contains_key(x) && prefix.is_prefix_of(x) && row == seq![SqlV::Text(x)];
    let rows = choose|rows: Seq<Seq<SqlV>>| #[trigger]
        answers(e.reply, rows) && rows.no_duplicates() && forall|row: Seq<SqlV>| #[trigger]
            rows.contains(row) <==> among(row);
    let views = rows_of(e.reply)->Ok_0;
    law_all_rows_are_read(views, |row: Seq<SqlV>| text_column(row, 0, "id"@));
    assert forall|i: int| 0 <= i < found.len() implies {
        &&& #[trigger] rows[i] == seq![SqlV::Text(found[i])]
        &&& store.nodes.contains_key(found[i])
        &&& prefix.is_prefix_of(found[i])
    } by {
        assert(views[i] == RowV::Ok(rows[i]));
        assert(rows.contains(rows[i]));
    }
    assert forall|x: Seq<char>| #[trigger]
        found.contains(x) <==> store.nodes.contains_key(x) && prefix.is_prefix_of(x) by {
        if found.contains(x) {
            assert(rows[found.index_of(x)] == seq![SqlV::Text(x)]);
        }
        if store.nodes.contains_key(x) && prefix.is_prefix_of(x) {
            let row = seq![SqlV::Text(x)];
            assert(among(row));
            assert(rows.contains(row));
            let i = rows.index_of(row);
            assert(rows[i] == seq![SqlV::Text(found[i])]);
            assert(row[0] == SqlV::Text(x));
            assert(found[i] == x);
        }
    }
    assert forall|i: int, j: int| 0 <= i < found.len() && 0 <= j < found.len() && i != j implies found[i] != found[j] by {
        assert(rows[i] != rows[j]);
    }
}

/// The newest inputs and facts that hang directly under a session are found, each
/// once and newest first: as many as there are, up to the limit, and none is left
/// out that is newer than one that is found.
pub proof fn law_newest_nodes_of_a_session_are_found(
    store: StoreV,
    e: Exchange,
    session: Seq<char>,
    limit: i64,
    found: Seq<NodeV>,
)
    requires
        tidy(store),
        limit >= 0,
        e.statement == statement(GET_RECENT_SESSION_NODES@, seq![SqlV::Text(session), SqlV::Integer(limit)]),
        nodes_of(e.reply) == Read::<Seq<NodeV>>::Ok(found),
        does(store, e, store),
    ensures
        found.len() <= limit,
        forall|i: int|
            0 <= i < found.len() ==> {
                &&& recent(store, SqlV::Text(session), (#[trigger] found[i]).id)
                &&& node_row(store.nodes[found[i].id]) == Read::<NodeV>::Ok(found[i])
            },
        forall|i: int, j: int| 0 <= i < j < found.len() ==> (#[trigger] found[i]).id != (#[trigger] found[j]).id,
        forall|i: int, j: int|
            0 <= i < j < found.len() ==> (#[trigger] found[i]).created_at >= (#[trigger] found[j]).created_at,
        forall|x: Seq<char>| #[trigger]
            recent(store, SqlV::Text(session), x) && (forall|i: int| 0 <= i < found.len() ==> (#[trigger] found[i]).id != x)
                ==> found.len() == limit && forall|i: int|
                0 <= i < found.len() ==> (#[trigger] found[i]).created_at >= store.nodes[x][7]->Integer_0,
{
    let to = SqlV::Text(session);
    assert(e.statement.params[0] == to);
    let among = |row: Seq<SqlV>| exists|x: Seq<char>| #[trigger] recent(store, to, x) && row == store.nodes[x];
    let rows = choose|rows: Seq<Seq<SqlV>>| #[trigger] answers(e.reply, rows) && newest(rows, among, limit);
    let views = rows_of(e.reply)->Ok_0;
    law_all_rows_are_read(views, |row: Seq<SqlV>| node_row(row));
    assert forall|i: int| 0 <= i < found.len() implies {
        &&& node_row(#[trigger] rows[i]) == Read::<NodeV>::Ok(found[i])
        &&& recent(store, to, found[i].id)
        &&& rows[i] == store.nodes[found[i].id]
        &&& found[i].created_at == rows[i][7]->Integer_0
    } by {
        assert(views[i] == RowV::Ok(rows[i]));
        assert(among(rows[i]));
        let x = choose|x: Seq<char>| #[trigger] recent(store, to, x) && rows[i] == store.nodes[x];
        assert(store.nodes.contains_key(x));
    }
    assert forall|i: int| 0 <= i < found.len() implies {
        &&& recent(store, to, (#[trigger] found[i]).id)
        &&& node_row(store.nodes[found[i].id]) == Read::<NodeV>::Ok(found[i])
    } by {
        assert(rows[i] == store.nodes[found[i].id]);
    }
    assert forall|i: int, j: int| 0 <= i < j < found.len() implies (#[trigger] found[i]).id != (#[trigger] found[j]).id by {
        assert(rows[i] != rows[j]);
        assert(rows[i] == store.nodes[found[i].id]);
        assert(rows[j] == store.nodes[found[j].id]);
    }
    assert forall|i: int, j: int| 0 <= i < j < found.len() implies (#[trigger] found[i]).created_at >= (
    #[trigger] found[j]).created_at by {
        assert(rows[i][7]->Integer_0 >= rows[j][7]->Integer_0);
    }
    assert forall|x: Seq<char>| #[trigger]
        recent(store, to, x) && (forall|i: int| 0 <= i < found.len() ==> (#[trigger] found[i]).id != x) implies found.len()
        == limit && forall|i: int|
        0 <= i < found.len() ==> (#[trigger] found[i]).created_at >= store.nodes[x][7]->Integer_0 by {
        let row = store.nodes[x];
        assert(among(row));
        if rows.contains(row) {
            let i = rows.index_of(row);
            assert(rows[i] == store.nodes[found[i].id]);
            assert(store.nodes.contains_key(x) && store.nodes.contains_key(found[i].id));
            assert(found[i].id == x);
        }
        assert forall|i: int| 0 <= i < found.len() implies (#[trigger] found[i]).created_at
            >= store.nodes[x][7]->Integer_0 by {
            assert(rows[i][7]->Integer_0 >= row[7]->Integer_0);
        }
    }
}

/// An exchange of linking: a query, or one that stores an edge or a contradiction.
pub open spec fn links_only(e: Exchange) -> bool {
    ||| e.reply is Rows
    ||| e.reply is Changed && (e.statement.sql == INSERT_EDGE@ || e.statement.sql == INSERT_CONTRADICTION@)
}

/// An exchange of linking a node to a candidate: a query, or one that stores an edge
/// from the node to the candidate, or a contradiction.
spec fn links_to(e: Exchange, node_id: Seq<char>, candidate_id: Seq<char>) -> bool {
    ||| e.reply is Rows
    ||| e.reply is Changed && e.statement.sql == INSERT_CONTRADICTION@
    ||| {
        &&& e.reply is Changed
        &&& e.statement.sql == INSERT_EDGE@
        &&& e.statement.params[1] == SqlV::Text(node_id)
        &&& e.statement.params[2] == SqlV::Text(candidate_id)
    }
}

/// Every exchange of a log was answered, and every edge in it was stored, which it
/// is where its ID is new.
pub open spec fn untroubled(log: Seq<Exchange>) -> bool {
    forall|i: int|
        0 <= i < log.len() ==> match (#[trigger] log[i]).reply {
            ReplyV::Rows(Ok(_)) => true,
            ReplyV::Changed(Ok(n)) => log[i].statement.sql == INSERT_EDGE@ ==> n > 0,
            _ => false,
        }
}

/// Linking leaves the nodes as they are, and all edges where they are.
pub proof fn lemma_links_only_adds(before: StoreV, log: Seq<Exchange>, after: StoreV)
    requires
        forall|i: int| 0 <= i < log.len() ==> links_only(#[trigger] log[i]),
        runs(before, log, after),
    ensures
        after.nodes == before.nodes,
        before.edges.subset_of(after.edges),
    decreases log.len(),
{
    if log.len() == 0 {
        lemma_runs_none(before, log, after);
    } else {
        let k = log.len() - 1;
        let middle = lemma_runs_split(before, log, after, k);
        assert forall|i: int| 0 <= i < log.take(k).len() implies links_only(#[trigger] log.take(k)[i]) by {
            assert(log.take(k)[i] == log[i]);
        }
        lemma_links_only_adds(before, log.take(k), middle);
        lemma_runs_one(middle, log.skip(k), after);
        assert(log.skip(k)[0] == log[k]);
        assert(links_only(log[k]));
    }
}

/// A log of queries leaves the store.
pub proof fn lemma_queries_leave(before: StoreV, log: Seq<Exchange>, after: StoreV)
    requires
        forall|i: int| 0 <= i < log.len() ==> (#[trigger] log[i]).reply is Rows,
        runs(before, log, after),
    ensures
        after == before,
    decreases log.len(),
{
    if log.len() == 0 {
        lemma_runs_none(before, log, after);
    } else {
        let k = log.len() - 1;
        let middle = lemma_runs_split(before, log, after, k);
        assert forall|i: int| 0 <= i < log.take(k).len() implies (#[trigger] log.take(k)[i]).reply is Rows by {
            assert(log.take(k)[i] == log[i]);
        }
        lemma_queries_leave(before, log.take(k), middle);
        lemma_runs_one(middle, log.skip(k), after);
        assert(log.skip(k)[0] == log[k]);
    }
}

/// A node is not linked to itself: as its own candidate it leaves no trace.
pub proof fn law_a_node_is_not_linked_to_itself(
    log: Seq<Exchange>,
    node_id: Seq<char>,
    node: NodeV,
    candidate: CandidateV,
    has_model: bool,
    seeds: LinkSeeds,
    r: Read<LinkActionV>,
)
    requires
        considers(log, node_id, node, candidate, has_model, seeds, r),
        candidate.id == node_id,
    ensures
        log.len() == 0,
        r == Read::<LinkActionV>::Ok(LinkActionV::Next),
{
}

/// What the lookup of a node finds in a store.
pub open spec fn found_in(store: StoreV, id: Seq<char>) -> Read<Option<NodeV>> {
    if store.nodes.contains_key(id) {
        match node_row(store.nodes[id]) {
            Ok(node) => Ok(Some(node)),
            Err(f) => Err(f),
        }
    } else {
        Ok(None)
    }
}

/// An edge of a kind leads from one node to another.
pub open spec fn tied(store: StoreV, src: Seq<char>, dst: Seq<char>, kind: EdgeKind) -> bool {
    linked(store, SqlV::Text(src), SqlV::Text(dst), SqlV::Text(edge_kind_name(kind)))
}

/// More edges tie no less.
proof fn lemma_tied_stays(before: StoreV, after: StoreV, src: Seq<char>, dst: Seq<char>, kind: EdgeKind)
    requires
        tied(before, src, dst, kind),
        before.edges.subset_of(after.edges),
    ensures
        tied(after, src, dst, kind),
{
    let name = SqlV::Text(edge_kind_name(kind));
    let edge = choose|edge: Seq<SqlV>| #[trigger]
        before.edges.contains(edge) && edge[1] == SqlV::Text(src) && edge[2] == SqlV::Text(dst) && edge[3] == name;
    assert(after.edges.contains(edge));
}

/// A candidate that is to be related is, after it was related.
proof fn lemma_related(
    before: StoreV,
    log: Seq<Exchange>,
    after: StoreV,
    node_id: Seq<char>,
    candidate: CandidateV,
    edge_id: Seq<char>,
    now: i64,
)
    requires
        relates(log, node_id, candidate, edge_id, now, Ok(())),
        untroubled(log),
        runs(before, log, after),
    ensures
        candidate.related ==> tied(after, node_id, candidate.id, EdgeKind::RelatesTo),
{
    if candidate.related {
        let one = lemma_runs_split(before, log, after, 1);
        lemma_runs_one(before, log.take(1), one);
        assert(log.take(1)[0] == log[0]);
        let n = choose|n: i64| #[trigger]
            counts_to(log[0].reply, n) && (n > 0 <==> tied(before, node_id, candidate.id, EdgeKind::RelatesTo));
        assert(any_counted(log[0].reply) == Read::<bool>::Ok(n > 0));
        let rest = log.skip(1);
        if n > 0 {
            lemma_runs_none(one, rest, after);
        } else {
            lemma_runs_one(one, rest, after);
            assert(rest[0] == log[1]);
            let edge = edge_cells(
                new_edge(edge_id, node_id, candidate.id, EdgeKind::RelatesTo, now, candidate.similarity),
            );
            assert(after.edges.contains(edge));
        }
    }
}

/// Nodes whose contradiction was recorded are tied by it.
proof fn lemma_recorded(
    before: StoreV,
    log: Seq<Exchange>,
    after: StoreV,
    node_id: Seq<char>,
    candidate_id: Seq<char>,
    edge_id: Seq<char>,
    now: i64,
    weight: RealBits,
)
    requires
        records(log, node_id, candidate_id, edge_id, now, weight, Ok(())),
        untroubled(log),
        runs(before, log, after),
    ensures
        tied(after, node_id, candidate_id, EdgeKind::Contradicts),
{
    let one = lemma_runs_split(before, log, after, 1);
    lemma_runs_one(before, log.take(1), one);
    assert(log.take(1)[0] == log[0]);
    let n = choose|n: i64| #[trigger]
        counts_to(log[0].reply, n) && (n > 0 <==> tied(before, node_id, candidate_id, EdgeKind::Contradicts));
    assert(any_counted(log[0].reply) == Read::<bool>::Ok(n > 0));
    let rest = log.skip(1);
    if n > 0 {
        lemma_runs_none(one, rest, after);
    } else {
        let statements = recording(node_id, candidate_id, edge_id, now, weight);
        let two = lemma_runs_two(one, rest, after);
        assert(rest[0] == log[1]);
        assert(rest[0].statement == statements[0]);
        assert(rest[1].statement == statements[1]);
        let edge = edge_cells(new_edge(edge_id, node_id, candidate_id, EdgeKind::Contradicts, now, weight));
        assert(two.edges.contains(edge));
        assert(after.edges.contains(edge));
    }
}

/// Recording a contradiction whose edge is there asks for the edge and stores
/// nothing.
proof fn lemma_recorded_before(
    store: StoreV,
    log: Seq<Exchange>,
    after: StoreV,
    node_id: Seq<char>,
    candidate_id: Seq<char>,
    edge_id: Seq<char>,
    now: i64,
    weight: RealBits,
    r: Read<()>,
)
    requires
        records(log, node_id, candidate_id, edge_id, now, weight, r),
        tied(store, node_id, candidate_id, EdgeKind::Contradicts),
        runs(store, log, after),
    ensures
        log.len() == 1,
        log[0].reply is Rows,
        after == store,
        untroubled(log) ==> r == Read::<()>::Ok(()),
{
    let one = lemma_runs_split(store, log, after, 1);
    lemma_runs_one(store, log.take(1), one);
    assert(log.take(1)[0] == log[0]);
    if log[0].reply matches ReplyV::Rows(Ok(_)) {
        let n = choose|n: i64| #[trigger]
            counts_to(log[0].reply, n) && (n > 0 <==> tied(store, node_id, candidate_id, EdgeKind::Contradicts));
        assert(any_counted(log[0].reply) == Read::<bool>::Ok(n > 0));
    }
    lemma_queries_leave(store, log, after);
}

/// A contradiction is recorded once: to record it again stores nothing, as long as
/// its edge is there.
pub proof fn law_contradiction_is_recorded_once(
    before: StoreV,
    log: Seq<Exchange>,
    middle: StoreV,
    node_id: Seq<char>,
    candidate_id: Seq<char>,
    edge_id: Seq<char>,
    now: i64,
    weight: RealBits,
    later: StoreV,
    log2: Seq<Exchange>,
    after: StoreV,
    edge_id2: Seq<char>,
    now2: i64,
    weight2: RealBits,
    r2: Read<()>,
)
    requires
        records(log, node_id, candidate_id, edge_id, now, weight, Ok(())),
        untroubled(log),
        runs(before, log, middle),
        middle.edges.subset_of(later.edges),
        records(log2, node_id, candidate_id, edge_id2, now2, weight2, r2),
        runs(later, log2, after),
    ensures
        log2.len() == 1,
        log2[0].reply is Rows,
        after == later,
        untroubled(log2) ==> r2 == Read::<()>::Ok(()),
{
    lemma_recorded(before, log, middle, node_id, candidate_id, edge_id, now, weight);
    lemma_tied_stays(middle, later, node_id, candidate_id, EdgeKind::Contradicts);
    lemma_recorded_before(later, log2, after, node_id, candidate_id, edge_id2, now2, weight2, r2);
}

/// A lookup that is answered finds what the store holds.
proof fn lemma_lookup(store: StoreV, e: Exchange, id: Seq<char>)
    requires
        e.statement == lookup(id),
        e.reply matches ReplyV::Rows(Ok(_)),
        does(store, e, store),
    ensures
        node_of(e.reply) == found_in(store, id),
{
}

/// The three parts of considering a candidate, and the stores between them.
pub proof fn lemma_considered_in_parts(
    before: StoreV,
    log: Seq<Exchange>,
    after: StoreV,
    node_id: Seq<char>,
    node: NodeV,
    candidate: CandidateV,
    has_model: bool,
    seeds: LinkSeeds,
    r: Read<LinkActionV>,
) -> (parts: (Seq<Exchange>, StoreV, Seq<Exchange>, SuspicionV, StoreV, Seq<Exchange>))
    requires
        considers(log, node_id, node, candidate, has_model, seeds, r),
        runs(before, log, after),
    ensures
        log == parts.0 + parts.2 + parts.5,
        considered(parts.0, parts.2, parts.3, parts.5, node_id, node, candidate, has_model, seeds, r),
        runs(before, parts.0, parts.1),
        runs(parts.1, parts.2, parts.4),
        runs(parts.4, parts.5, after),
{
    let (relating, suspecting, suspicion, noting) = choose|
        relating: Seq<Exchange>,
        suspecting: Seq<Exchange>,
        suspicion: SuspicionV,
        noting: Seq<Exchange>,
    |
        log == relating + suspecting + noting && #[trigger] considered(
            relating,
            suspecting,
            suspicion,
            noting,
            node_id,
            node,
            candidate,
            has_model,
            seeds,
            r,
        );
    let one = lemma_runs_split(before, log, after, relating.len() as int);
    assert(log.take(relating.len() as int) =~= relating);
    let rest = log.skip(relating.len() as int);
    let two = lemma_runs_split(one, rest, after, suspecting.len() as int);
    assert(rest.take(suspecting.len() as int) =~= suspecting);
    assert(rest.skip(suspecting.len() as int) =~= noting);
    (relating, one, suspecting, suspicion, two, noting)
}

/// Considering a candidate only asks, and stores edges from the node to the
/// candidate and contradictions.
proof fn lemma_considers_links_only(
    log: Seq<Exchange>,
    node_id: Seq<char>,
    node: NodeV,
    candidate: CandidateV,
    has_model: bool,
    seeds: LinkSeeds,
    r: Read<LinkActionV>,
)
    requires
        considers(log, node_id, node, candidate, has_model, seeds, r),
    ensures
        forall|i: int| 0 <= i < log.len() ==> links_to(#[trigger] log[i], node_id, candidate.id),
        forall|i: int| 0 <= i < log.len() ==> links_only(#[trigger] log[i]),
{
    let (relating, suspecting, suspicion, noting) = choose|
        relating: Seq<Exchange>,
        suspecting: Seq<Exchange>,
        suspicion: SuspicionV,
        noting: Seq<Exchange>,
    |
        log == relating + suspecting + noting && #[trigger] considered(
            relating,
            suspecting,
            suspicion,
            noting,
            node_id,
            node,
            candidate,
            has_model,
            seeds,
            r,
        );
    let now = seeds.contradicts.now;
    let statements = recording(node_id, candidate.id, seeds.contradicts.id@, now, seeds.contradicts.weight);
    assert forall|i: int| 0 <= i < log.len() implies links_to(#[trigger] log[i], node_id, candidate.id) by {
        if i < relating.len() {
            assert(log[i] == relating[i]);
        } else if i < relating.len() + suspecting.len() {
            assert(log[i] == suspecting[i - relating.len()]);
        } else {
            let j = i - relating.len() - suspecting.len();
            assert(log[i] == noting[j]);
            if j > 0 {
                let rest = noting.skip(1);
                assert(rest[j - 1] == noting[j]);
                if r is Ok {
                    assert(went_through(rest, statements));
                    assert(rest[j - 1].statement == statements[j - 1]);
                } else if j - 1 < rest.len() - 1 {
                    assert(rest.drop_last()[j - 1] == rest[j - 1]);
                    assert(statements.take(rest.len() - 1)[j - 1] == statements[j - 1]);
                } else {
                    assert(rest.last() == rest[j - 1]);
                }
            }
        }
    }
}

/// A candidate that was considered without a model is tied as it should be.
proof fn lemma_considered_is_tied(
    before: StoreV,
    log: Seq<Exchange>,
    after: StoreV,
    node_id: Seq<char>,
    node: NodeV,
    candidate: CandidateV,
    seeds: LinkSeeds,
)
    requires
        considers(log, node_id, node, candidate, false, seeds, Ok(LinkActionV::Next)),
        untroubled(log),
        runs(before, log, after),
        candidate.id != node_id,
    ensures
        after.nodes == before.nodes,
        before.edges.subset_of(after.edges),
        candidate.related ==> tied(after, node_id, candidate.id, EdgeKind::RelatesTo),
        candidate.close && negation_with(node, found_in(before, candidate.id)) ==> tied(
            after,
            node_id,
            candidate.id,
            EdgeKind::Contradicts,
        ),
{
    let r = Read::<LinkActionV>::Ok(LinkActionV::Next);
    let (relating, one, suspecting, suspicion, two, noting) = lemma_considered_in_parts(
        before,
        log,
        after,
        node_id,
        node,
        candidate,
        false,
        seeds,
        r,
    );
    lemma_considers_links_only(log, node_id, node, candidate, false, seeds, r);
    lemma_links_only_adds(before, log, after);
    let now = seeds.contradicts.now;
    assert forall|i: int| 0 <= i < relating.len() implies links_only(#[trigger] relating[i]) && log[i] == relating[i] by {
        assert(links_only(log[i]));
    }
    assert(untroubled(relating)) by {
        assert forall|i: int| 0 <= i < relating.len() implies relating[i] == #[trigger] log[i] by {}
    }
    assert forall|i: int| 0 <= i < suspecting.len() implies suspecting[i] == #[trigger] log[relating.len() + i] by {}
    assert forall|i: int| 0 <= i < noting.len() implies noting[i] == #[trigger] log[relating.len() + suspecting.len()
        + i] by {}
    assert(untroubled(noting)) by {
        assert forall|i: int| 0 <= i < noting.len() implies match (#[trigger] noting[i]).reply {
            ReplyV::Rows(Ok(_)) => true,
            ReplyV::Changed(Ok(n)) => noting[i].statement.sql == INSERT_EDGE@ ==> n > 0,
            _ => false,
        } by {
            assert(noting[i] == log[relating.len() + suspecting.len() + i]);
        }
    }
    lemma_related(before, relating, one, node_id, candidate, seeds.related_id@, now);
    lemma_links_only_adds(before, relating, one);
    lemma_queries_leave(one, suspecting, two);
    assert forall|i: int| 0 <= i < noting.len() implies links_only(#[trigger] noting[i]) by {
        assert(links_only(log[relating.len() + suspecting.len() + i]));
    }
    lemma_links_only_adds(two, noting, after);
    if candidate.related {
        lemma_tied_stays(one, after, node_id, candidate.id, EdgeKind::RelatesTo);
    }
    if candidate.close && negation_with(node, found_in(before, candidate.id)) {
        assert(suspecting[0] == log[relating.len() as int]);
        let first = lemma_runs_split(one, suspecting, two, 1);
        lemma_runs_one(one, suspecting.take(1), first);
        assert(suspecting.take(1)[0] == suspecting[0]);
        lemma_lookup(one, suspecting[0], candidate.id);
        assert(suspicion == SuspicionV::Contradiction);
        lemma_recorded(
            two,
            noting,
            after,
            node_id,
            candidate.id,
            seeds.contradicts.id@,
            now,
            seeds.contradicts.weight,
        );
    }
}

/// To consider a candidate without a model adds nothing where it is tied as it
/// should be.
proof fn lemma_considered_again(
    store: StoreV,
    log: Seq<Exchange>,
    after: StoreV,
    node_id: Seq<char>,
    node: NodeV,
    candidate: CandidateV,
    seeds: LinkSeeds,
    r: Read<LinkActionV>,
)
    requires
        considers(log, node_id, node, candidate, false, seeds, r),
        runs(store, log, after),
        candidate.id != node_id,
        candidate.related ==> tied(store, node_id, candidate.id, EdgeKind::RelatesTo),
        candidate.close && negation_with(node, found_in(store, candidate.id)) ==> tied(
            store,
            node_id,
            candidate.id,
            EdgeKind::Contradicts,
        ),
    ensures
        forall|i: int| 0 <= i < log.len() ==> (#[trigger] log[i]).reply is Rows,
        after == store,
        untroubled(log) ==> r == Read::<LinkActionV>::Ok(LinkActionV::Next),
{
    let (relating, one, suspecting, suspicion, two, noting) = lemma_considered_in_parts(
        store,
        log,
        after,
        node_id,
        node,
        candidate,
        false,
        seeds,
        r,
    );
    assert forall|i: int| 0 <= i < relating.len() implies relating[i] == #[trigger] log[i] by {}
    if candidate.related {
        let first = lemma_runs_split(store, relating, one, 1);
        lemma_runs_one(store, relating.take(1), first);
        assert(relating.take(1)[0] == relating[0]);
        assert(relating[0] == log[0]);
        if relating[0].reply matches ReplyV::Rows(Ok(_)) {
            let n = choose|n: i64| #[trigger]
                counts_to(relating[0].reply, n) && (n > 0 <==> tied(
                    store,
                    node_id,
                    candidate.id,
                    EdgeKind::RelatesTo,
                ));
            assert(any_counted(relating[0].reply) == Read::<bool>::Ok(n > 0));
        }
        assert(relating.len() == 1);
    }
    assert forall|i: int| 0 <= i < relating.len() implies (#[trigger] relating[i]).reply is Rows by {}
    lemma_queries_leave(store, relating, one);
    assert forall|i: int| 0 <= i < suspecting.len() implies (#[trigger] suspecting[i]).reply is Rows by {}
    lemma_queries_leave(one, suspecting, two);
    if noting.len() > 0 {
        let first = lemma_runs_split(one, suspecting, two, 1);
        lemma_runs_one(one, suspecting.take(1), first);
        assert(suspecting.take(1)[0] == suspecting[0]);
        lemma_lookup(one, suspecting[0], candidate.id);
        lemma_recorded_before(
            two,
            noting,
            after,
            node_id,
            candidate.id,
            seeds.contradicts.id@,
            seeds.contradicts.now,
            seeds.contradicts.weight,
            match r {
                Ok(_) => Ok(()),
                Err(f) => Err(f),
            },
        );
        assert(noting[0] == log[(relating.len() + suspecting.len()) as int]);
        assert(untroubled(log) ==> untroubled(noting));
    } else {
        lemma_runs_none(two, noting, after);
    }
    assert forall|i: int| 0 <= i < log.len() implies (#[trigger] log[i]).reply is Rows by {
        if i < relating.len() {
        } else if i < relating.len() + suspecting.len() {
            assert(log[i] == suspecting[i - relating.len()]);
        } else {
            assert(log[i] == noting[i - relating.len() - suspecting.len()]);
        }
    }
}

/// A node is linked to some candidates without a model, one after the other.
/// `stores` holds what is there before each of them and at the end, and `results`
/// what comes of each.
pub open spec fn links(
    stores: Seq<StoreV>,
    logs: Seq<Seq<Exchange>>,
    node_id: Seq<char>,
    node: NodeV,
    candidates: Seq<CandidateV>,
    seeds: Seq<LinkSeeds>,
    results: Seq<Read<LinkActionV>>,
) -> bool {
    &&& logs.len() == candidates.len()
    &&& seeds.len() == candidates.len()
    &&& results.len() == candidates.len()
    &&& stores.len() == candidates.len() + 1
    &&& forall|i: int|
        0 <= i < logs.len() ==> {
            &&& considers(#[trigger] logs[i], node_id, node, candidates[i], false, seeds[i], results[i])
            &&& runs(stores[i], logs[i], stores[i + 1])
        }
}

/// Linking leaves the nodes, and all edges where they are, from any candidate to
/// the end.
proof fn lemma_links_grow(
    stores: Seq<StoreV>,
    logs: Seq<Seq<Exchange>>,
    node_id: Seq<char>,
    node: NodeV,
    candidates: Seq<CandidateV>,
    seeds: Seq<LinkSeeds>,
    results: Seq<Read<LinkActionV>>,
    from: int,
)
    requires
        links(stores, logs, node_id, node, candidates, seeds, results),
        0 <= from < stores.len(),
    ensures
        stores.last().nodes == stores[from].nodes,
        stores[from].edges.subset_of(stores.last().edges),
    decreases stores.len() - from,
{
    if from < stores.len() - 1 {
        let log = logs[from];
        lemma_considers_links_only(
            log,
            node_id,
            node,
            candidates[from],
            false,
            seeds[from],
            results[from],
        );
        lemma_links_only_adds(stores[from], log, stores[from + 1]);
        lemma_links_grow(stores, logs, node_id, node, candidates, seeds, results, from + 1);
    }
}

/// The first candidates of a second linking add nothing.
proof fn lemma_linking_again(
    stores: Seq<StoreV>,
    logs: Seq<Seq<Exchange>>,
    node_id: Seq<char>,
    node: NodeV,
    candidates: Seq<CandidateV>,
    seeds: Seq<LinkSeeds>,
    results: Seq<Read<LinkActionV>>,
    stores2: Seq<StoreV>,
    logs2: Seq<Seq<Exchange>>,
    seeds2: Seq<LinkSeeds>,
    results2: Seq<Read<LinkActionV>>,
    upto: int,
)
    requires
        links(stores, logs, node_id, node, candidates, seeds, results),
        forall|i: int|
            0 <= i < logs.len() ==> untroubled(#[trigger] logs[i]) && results[i] == Read::<LinkActionV>::Ok(
                LinkActionV::Next,
            ),
        links(stores2, logs2, node_id, node, candidates, seeds2, results2),
        stores2[0].nodes == stores.last().nodes,
        stores.last().edges.subset_of(stores2[0].edges),
        0 <= upto <= logs2.len(),
    ensures
        stores2[upto] == stores2[0],
        forall|i: int, j: int|
            0 <= i < upto && 0 <= j < logs2[i].len() ==> (#[trigger] logs2[i][j]).reply is Rows,
        forall|i: int|
            0 <= i < upto && untroubled(#[trigger] logs2[i]) ==> results2[i] == Read::<LinkActionV>::Ok(
                LinkActionV::Next,
            ),
    decreases upto,
{
    if upto > 0 {
        let k = upto - 1;
        lemma_linking_again(
            stores,
            logs,
            node_id,
            node,
            candidates,
            seeds,
            results,
            stores2,
            logs2,
            seeds2,
            results2,
            k,
        );
        let candidate = candidates[k];
        assert(untroubled(logs[k]));
        assert(considers(logs[k], node_id, node, candidate, false, seeds[k], results[k]));
        assert(considers(logs2[k], node_id, node, candidate, false, seeds2[k], results2[k]));
        assert(runs(stores2[k], logs2[k], stores2[k + 1]));
        if candidate.id == node_id {
            lemma_runs_none(stores2[k], logs2[k], stores2[k + 1]);
        } else {
            lemma_considered_is_tied(stores[k], logs[k], stores[k + 1], node_id, node, candidate, seeds[k]);
            lemma_links_grow(stores, logs, node_id, node, candidates, seeds, results, k + 1);
            let later = stores2[k];
            assert(stores[k + 1].edges.subset_of(later.edges));
            if candidate.related {
                lemma_tied_stays(stores[k + 1], later, node_id, candidate.id, EdgeKind::RelatesTo);
            }
            if candidate.close && negation_with(node, found_in(later, candidate.id)) {
                lemma_tied_stays(stores[k + 1], later, node_id, candidate.id, EdgeKind::Contradicts);
            }
            lemma_considered_again(later, logs2[k], stores2[k + 1], node_id, node, candidate, seeds2[k], results2[k]);
        }
    }
}

/// Linking a node a second time to the same candidates, without a model, adds
/// nothing: it only asks, what is there stays the same, and it goes through where
/// what it asks is answered.
pub proof fn law_linking_again_adds_nothing(
    stores: Seq<StoreV>,
    logs: Seq<Seq<Exchange>>,
    node_id: Seq<char>,
    node: NodeV,
    candidates: Seq<CandidateV>,
    seeds: Seq<LinkSeeds>,
    results: Seq<Read<LinkActionV>>,
    stores2: Seq<StoreV>,
    logs2: Seq<Seq<Exchange>>,
    seeds2: Seq<LinkSeeds>,
    results2: Seq<Read<LinkActionV>>,
)
    requires
        links(stores, logs, node_id, node, candidates, seeds, results),
        forall|i: int|
            0 <= i < logs.len() ==> untroubled(#[trigger] logs[i]) && results[i] == Read::<LinkActionV>::Ok(
                LinkActionV::Next,
            ),
        links(stores2, logs2, node_id, node, candidates, seeds2, results2),
        stores2[0].nodes == stores.last().nodes,
        stores.last().edges.subset_of(stores2[0].edges),
    ensures
        stores2.last() == stores2[0],
        forall|i: int, j: int|
            0 <= i < logs2.len() && 0 <= j < logs2[i].len() ==> (#[trigger] logs2[i][j]).reply is Rows,
        forall|i: int|
            0 <= i < logs2.len() && untroubled(#[trigger] logs2[i]) ==> results2[i] == Read::<LinkActionV>::Ok(
                LinkActionV::Next,
            ),
{
    lemma_linking_again(
        stores,
        logs,
        node_id,
        node,
        candidates,
        seeds,
        results,
        stores2,
        logs2,
        seeds2,
        results2,
        logs2.len() as int,
    );
}

/// Linking a node to a candidate adds edges from the node to the candidate alone.
proof fn lemma_links_to(
    before: StoreV,
    log: Seq<Exchange>,
    after: StoreV,
    node_id: Seq<char>,
    candidate_id: Seq<char>,
)
    requires
        forall|i: int| 0 <= i < log.len() ==> links_to(#[trigger] log[i], node_id, candidate_id),
        runs(before, log, after),
    ensures
        forall|edge: Seq<SqlV>| #[trigger]
            after.edges.contains(edge) && !before.edges.contains(edge) ==> edge[1] == SqlV::Text(node_id) && edge[2]
                == SqlV::Text(candidate_id),
    decreases log.len(),
{
    if log.len() == 0 {
        lemma_runs_none(before, log, after);
    } else {
        let k = log.len() - 1;
        let middle = lemma_runs_split(before, log, after, k);
        assert forall|i: int| 0 <= i < log.take(k).len() implies links_to(
            #[trigger] log.take(k)[i],
            node_id,
            candidate_id,
        ) by {
            assert(log.take(k)[i] == log[i]);
        }
        lemma_links_to(before, log.take(k), middle, node_id, candidate_id);
        lemma_runs_one(middle, log.skip(k), after);
        assert(log.skip(k)[0] == log[k]);
        assert(links_to(log[k], node_id, candidate_id));
    }
}

/// No edge from a node to itself comes of linking: every edge that is added leads
/// from the node to the candidate, which is another node.
pub proof fn law_linking_ties_a_node_to_others_only(
    before: StoreV,
    log: Seq<Exchange>,
    after: StoreV,
    node_id: Seq<char>,
    node: NodeV,
    candidate: CandidateV,
    has_model: bool,
    seeds: LinkSeeds,
    r: Read<LinkActionV>,
)
    requires
        considers(log, node_id, node, candidate, has_model, seeds, r),
        runs(before, log, after),
    ensures
        forall|edge: Seq<SqlV>| #[trigger]
            after.edges.contains(edge) && !before.edges.contains(edge) ==> {
                &&& edge[1] == SqlV::Text(node_id)
                &&& edge[2] == SqlV::Text(candidate.id)
                &&& candidate.id != node_id
            },
{
    lemma_considers_links_only(log, node_id, node, candidate, has_model, seeds, r);
    lemma_links_to(before, log, after, node_id, candidate.id);
    if candidate.id == node_id {
        lemma_runs_none(before, log, after);
    }
}

}
