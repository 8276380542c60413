//! What upkeep and compaction leave in a store that keeps to its statements.

use vstd::prelude::*;
use vstd::seq_lib::seq_to_set_is_finite;

use super::graph::{lemma_contradiction_reads_back, lemma_contradictions_are_read, tidy, tied};
use super::{
    answers, contradiction_cells, counts_to, does, hangs_under, last_used, lemma_runs_none, lemma_runs_one,
    lemma_runs_split, lemma_runs_two, linked, resolved_between, rested, runs, text_at, text_in, with_row, StoreV,
};
use crate::compaction::{compaction_mark, mark_statement, storing};
use crate::db::params::{edge_cells, node_cells};
use crate::db::queries::{
    any_counted, decayable_of, edge_exists_query, open_contradictions_of, DECAY_REST_SECS, UPDATE_IMPORTANCE,
    UPDATE_TRUST,
};
use crate::db::rows::{decayable_row, law_all_rows_are_read, node_row, open_contradiction_row, Read};
use crate::db::{completed, ran, rows_of, Exchange, ReplyV, RowV, SqlV};
use crate::types::{new_edge, ConsolidationReport, ContradictionV, EdgeKind, NodeV, RealBits};
use crate::upkeep::{
    adjusts, consolidated, consolidates, decay_steps, decayed_one, decays, in_turn, readable, settles, trust_row,
};

verus! {

/// A query, or a statement that sets the importance or the trust score of a node.
pub open spec fn sets_column(e: Exchange, column: int) -> bool {
    ||| e.reply is Rows
    ||| e.reply is Changed && column == 4 && e.statement.sql == UPDATE_IMPORTANCE@
    ||| e.reply is Changed && column == 5 && e.statement.sql == UPDATE_TRUST@
}

/// One column of the nodes changed, and nothing else.
pub open spec fn differs_in(before: StoreV, after: StoreV, column: int) -> bool {
    &&& after == StoreV { nodes: after.nodes, ..before }
    &&& after.nodes.dom() == before.nodes.dom()
    &&& forall|x: Seq<char>|
        before.nodes.contains_key(x) ==> #[trigger] after.nodes[x] == before.nodes[x].update(column, after.nodes[x][column])
}

/// Statements that set one column of nodes change that column alone.
pub proof fn lemma_sets_column(before: StoreV, log: Seq<Exchange>, after: StoreV, column: int)
    requires
        tidy(before),
        column == 4 || column == 5,
        forall|i: int| 0 <= i < log.len() ==> sets_column(#[trigger] log[i], column),
        runs(before, log, after),
    ensures
        tidy(after),
        differs_in(before, after, column),
        forall|x: Seq<char>|
            before.nodes.contains_key(x) && (forall|i: int|
                0 <= i < log.len() && (#[trigger] log[i]).reply is Changed ==> text_at(log[i].statement, 1) != x)
                ==> #[trigger] after.nodes[x] == before.nodes[x],
    decreases log.len(),
{
    if log.len() == 0 {
        lemma_runs_none(before, log, after);
        assert forall|x: Seq<char>| before.nodes.contains_key(x) implies #[trigger] after.nodes[x]
            == before.nodes[x].update(column, after.nodes[x][column]) by {
            assert(before.nodes[x].update(column, after.nodes[x][column]) =~= before.nodes[x]);
        }
    } else {
        let k = log.len() - 1;
        let middle = lemma_runs_split(before, log, after, k);
        assert forall|i: int| 0 <= i < log.take(k).len() implies sets_column(#[trigger] log.take(k)[i], column) by {
            assert(log.take(k)[i] == log[i]);
        }
        lemma_sets_column(before, log.take(k), middle, column);
        lemma_runs_one(middle, log.skip(k), after);
        assert(log.skip(k)[0] == log[k]);
        assert(sets_column(log[k], column));
        let id = text_at(log[k].statement, 1);
        assert(after.nodes.dom() =~= before.nodes.dom());
        assert forall|x: Seq<char>| before.nodes.contains_key(x) implies #[trigger] after.nodes[x]
            == before.nodes[x].update(column, after.nodes[x][column]) by {
            assert(middle.nodes.contains_key(x));
            assert(middle.nodes[x] == before.nodes[x].update(column, middle.nodes[x][column]));
            assert(after.nodes[x] =~= before.nodes[x].update(column, after.nodes[x][column]));
        }
        assert forall|x: Seq<char>| #[trigger] after.nodes.contains_key(x) implies {
            let row = after.nodes[x];
            &&& row.len() == 11
            &&& row[0] == SqlV::Text(x)
            &&& row[6] is Integer
            &&& row[6]->Integer_0 >= 0
        } by {
            assert(before.nodes.contains_key(x));
            assert(after.nodes[x] == before.nodes[x].update(column, after.nodes[x][column]));
        }
        assert forall|x: Seq<char>|
            before.nodes.contains_key(x) && (forall|i: int|
                0 <= i < log.len() && (#[trigger] log[i]).reply is Changed ==> text_at(log[i].statement, 1) != x) implies
            #[trigger] after.nodes[x] == before.nodes[x] by {
            assert forall|i: int| 0 <= i < log.take(k).len() && (#[trigger] log.take(k)[i]).reply is Changed implies text_at(
                log.take(k)[i].statement,
                1,
            ) != x by {
                assert(log.take(k)[i] == log[i]);
            }
            assert(middle.nodes[x] == before.nodes[x]);
            assert(middle.nodes.contains_key(x));
            if log[k].reply is Changed {
                assert(id != x);
            }
        }
    }
}

/// What holds of every exchange of dealing with one item holds of every exchange of
/// dealing with them in turn.
pub proof fn lemma_in_turn_all<T>(
    log: Seq<Exchange>,
    items: Seq<T>,
    one: spec_fn(Seq<Exchange>, T, Read<bool>) -> bool,
    sofar: nat,
    r: Read<nat>,
    holds: spec_fn(Exchange) -> bool,
)
    requires
        in_turn(log, items, one, sofar, r),
        forall|step: Seq<Exchange>, item: T, did: Read<bool>, i: int|
            #![trigger one(step, item, did), step[i]]
            one(step, item, did) && 0 <= i < step.len() ==> holds(step[i]),
    ensures
        forall|i: int| 0 <= i < log.len() ==> holds(#[trigger] log[i]),
    decreases items.len(),
{
    if items.len() > 0 {
        let (n, did) = choose|n: int, did: Read<bool>|
            0 <= n <= log.len() && #[trigger] one(log.take(n), items[0], did) && match did {
                Err(f) => n == log.len() && r == Read::<nat>::Err(f),
                Ok(did) => in_turn(
                    log.skip(n),
                    items.skip(1),
                    one,
                    if did {
                        sofar + 1
                    } else {
                        sofar
                    },
                    r,
                ),
            };
        if let Ok(did) = did {
            lemma_in_turn_all(
                log.skip(n),
                items.skip(1),
                one,
                if did {
                    sofar + 1
                } else {
                    sofar
                },
                r,
                holds,
            );
        }
        assert forall|i: int| 0 <= i < log.len() implies holds(#[trigger] log[i]) by {
            if i < n {
                assert(log.take(n)[i] == log[i]);
            } else {
                assert(log.skip(n)[i - n] == log[i]);
            }
        }
    }
}

/// One of the two nodes of a contradiction supersedes the other.
pub open spec fn superseded(store: StoreV, c: ContradictionV) -> bool {
    let kind = SqlV::Text("supersedes"@);
    linked(store, SqlV::Text(c.node_a), SqlV::Text(c.node_b), kind) || linked(
        store,
        SqlV::Text(c.node_b),
        SqlV::Text(c.node_a),
        kind,
    )
}

/// A contradiction after those that can be were settled.
pub open spec fn settled(store: StoreV, c: ContradictionV) -> ContradictionV {
    if superseded(store, c) {
        ContradictionV { resolved: true, ..c }
    } else {
        c
    }
}

/// The contradictions that are open.
pub open spec fn opened(store: StoreV) -> Set<ContradictionV> {
    store.contradictions.filter(|c: ContradictionV| !c.resolved)
}

/// There is at most one contradiction between two nodes, in the same order.
pub open spec fn pairs_keyed(store: StoreV) -> bool {
    forall|a: ContradictionV, b: ContradictionV|
        #![trigger store.contradictions.contains(a), store.contradictions.contains(b)]
        store.contradictions.contains(a) && store.contradictions.contains(b) && a.node_a == b.node_a && a.node_b
            == b.node_b ==> a == b
}

/// A question whether an edge is there is answered by the store.
proof fn lemma_edge_is_asked_for(store: StoreV, e: Exchange, src: Seq<char>, dst: Seq<char>, kind: EdgeKind)
    requires
        e.statement == edge_exists_query(src, dst, kind),
        any_counted(e.reply) is Ok,
        does(store, e, store),
    ensures
        any_counted(e.reply) == Read::<bool>::Ok(tied(store, src, dst, kind)),
{
    let n = choose|n: i64| #[trigger] counts_to(e.reply, n) && (n > 0 <==> tied(store, src, dst, kind));
    assert(any_counted(e.reply) == Read::<bool>::Ok(n > 0));
}

/// A contradiction is settled where one of its nodes supersedes the other, and
/// nothing else changes.
proof fn lemma_settled_one(before: StoreV, log: Seq<Exchange>, after: StoreV, pair: ContradictionV, did: bool)
    requires
        settles(log, pair, Ok(did)),
        runs(before, log, after),
    ensures
        did == superseded(before, pair),
        after == if did {
            StoreV {
                contradictions: before.contradictions.map(
                    |c: ContradictionV| resolved_between(c, pair.node_a, pair.node_b),
                ),
                ..before
            }
        } else {
            before
        },
{
    let one = lemma_runs_split(before, log, after, 1);
    lemma_runs_one(before, log.take(1), one);
    assert(log.take(1)[0] == log[0]);
    lemma_edge_is_asked_for(before, log[0], pair.node_a, pair.node_b, EdgeKind::Supersedes);
    let rest = log.skip(1);
    if tied(before, pair.node_a, pair.node_b, EdgeKind::Supersedes) {
        lemma_runs_one(one, rest, after);
    } else {
        let two = lemma_runs_split(one, rest, after, 1);
        lemma_runs_one(one, rest.take(1), two);
        assert(rest.take(1)[0] == log[1]);
        lemma_edge_is_asked_for(one, log[1], pair.node_b, pair.node_a, EdgeKind::Supersedes);
        let last = rest.skip(1);
        assert(last =~= log.skip(2));
        if tied(before, pair.node_b, pair.node_a, EdgeKind::Supersedes) {
            lemma_runs_one(two, last, after);
        } else {
            lemma_runs_none(two, last, after);
        }
    }
}

/// The contradictions of a list that are superseded are settled and counted; the
/// others, and everything else, stay.
proof fn lemma_settled_all(
    before: StoreV,
    log: Seq<Exchange>,
    after: StoreV,
    items: Seq<ContradictionV>,
    sofar: nat,
    count: nat,
)
    requires
        in_turn(
            log,
            items,
            |log: Seq<Exchange>, pair: ContradictionV, r: Read<bool>| settles(log, pair, r),
            sofar,
            Ok(count),
        ),
        runs(before, log, after),
        pairs_keyed(before),
        items.no_duplicates(),
        forall|i: int| 0 <= i < items.len() ==> before.contradictions.contains(#[trigger] items[i]),
    ensures
        after == (StoreV { contradictions: after.contradictions, ..before }),
        pairs_keyed(after),
        forall|c: ContradictionV| #[trigger]
            after.contradictions.contains(c) <==> exists|d: ContradictionV| #[trigger]
                before.contradictions.contains(d) && c == if items.contains(d) {
                    settled(before, d)
                } else {
                    d
                },
        count == sofar + items.to_set().filter(|c: ContradictionV| superseded(before, c)).len(),
    decreases items.len(),
{
    let one = |log: Seq<Exchange>, pair: ContradictionV, r: Read<bool>| settles(log, pair, r);
    let test = |c: ContradictionV| superseded(before, c);
    seq_to_set_is_finite(items);
    if items.len() == 0 {
        lemma_runs_none(before, log, after);
        assert(items.to_set().filter(test) =~= Set::<ContradictionV>::empty());
        assert forall|c: ContradictionV| #[trigger] after.contradictions.contains(c) implies exists|d: ContradictionV|
            #[trigger]
            before.contradictions.contains(d) && c == if items.contains(d) {
                settled(before, d)
            } else {
                d
            } by {
            assert(before.contradictions.contains(c));
        }
    } else {
        let (n, outcome) = choose|n: int, did: Read<bool>|
            0 <= n <= log.len() && #[trigger] one(log.take(n), items[0], did) && match did {
                Err(f) => n == log.len() && Read::<nat>::Ok(count) == Read::<nat>::Err(f),
                Ok(did) => in_turn(
                    log.skip(n),
                    items.skip(1),
                    one,
                    if did {
                        sofar + 1
                    } else {
                        sofar
                    },
                    Ok(count),
                ),
            };
        let did = outcome->Ok_0;
        let pair = items[0];
        let rest = items.skip(1);
        let middle = lemma_runs_split(before, log, after, n);
        lemma_settled_one(before, log.take(n), middle, pair, did);
        let step = |c: ContradictionV|
            if did {
                resolved_between(c, pair.node_a, pair.node_b)
            } else {
                c
            };
        assert forall|c: ContradictionV| #[trigger] before.contradictions.contains(c) && c != pair implies step(c)
            == c by {
            assert(before.contradictions.contains(pair));
        }
        assert forall|c: ContradictionV| #[trigger] middle.contradictions.contains(c) <==> exists|d: ContradictionV|
            #[trigger]
            before.contradictions.contains(d) && c == step(d) by {
            if middle.contradictions.contains(c) && !did {
                assert(before.contradictions.contains(c) && c == step(c));
            }
        }
        assert forall|i: int| 0 <= i < rest.len() implies middle.contradictions.contains(#[trigger] rest[i]) by {
            assert(rest[i] == items[i + 1]);
            assert(before.contradictions.contains(items[i + 1]));
            assert(items[i + 1] != pair);
            assert(step(rest[i]) == rest[i]);
        }
        assert(rest.no_duplicates()) by {
            assert forall|i: int, j: int| 0 <= i < rest.len() && 0 <= j < rest.len() && i != j implies rest[i]
                != rest[j] by {
                assert(items[i + 1] != items[j + 1]);
            }
        }
        assert(pairs_keyed(middle)) by {
            assert forall|a: ContradictionV, b: ContradictionV|
                #![trigger middle.contradictions.contains(a), middle.contradictions.contains(b)]
                middle.contradictions.contains(a) && middle.contradictions.contains(b) && a.node_a == b.node_a
                    && a.node_b == b.node_b implies a == b by {
                let x = choose|d: ContradictionV| #[trigger] before.contradictions.contains(d) && a == step(d);
                let y = choose|d: ContradictionV| #[trigger] before.contradictions.contains(d) && b == step(d);
                assert(x == y);
            }
        }
        lemma_settled_all(
            middle,
            log.skip(n),
            after,
            rest,
            if did {
                sofar + 1
            } else {
                sofar
            },
            count,
        );
        assert forall|c: ContradictionV| superseded(middle, c) == superseded(before, c) by {
            assert(middle.edges == before.edges);
            lemma_same_edges(before, middle, c.node_a, c.node_b, EdgeKind::Supersedes);
            lemma_same_edges(before, middle, c.node_b, c.node_a, EdgeKind::Supersedes);
        }
        assert(!rest.contains(pair)) by {
            if rest.contains(pair) {
                let i = rest.index_of(pair);
                assert(items[i + 1] == pair);
            }
        }
        assert(items.to_set() =~= rest.to_set().insert(pair)) by {
            assert forall|c: ContradictionV| items.to_set().contains(c) <==> rest.to_set().insert(pair).contains(c) by {
                if items.contains(c) {
                    let i = items.index_of(c);
                    if i > 0 {
                        assert(rest[i - 1] == c);
                    }
                }
                if rest.contains(c) {
                    assert(items[rest.index_of(c) + 1] == c);
                }
                assert(items[0] == pair);
            }
        }
        seq_to_set_is_finite(rest);
        let counted = rest.to_set().filter(test);
        assert(rest.to_set().filter(|c: ContradictionV| superseded(middle, c)) =~= counted);
        if did {
            assert(items.to_set().filter(test) =~= counted.insert(pair));
        } else {
            assert(items.to_set().filter(test) =~= counted);
        }
        assert forall|c: ContradictionV| #[trigger] after.contradictions.contains(c) <==> exists|d: ContradictionV|
            #[trigger]
            before.contradictions.contains(d) && c == if items.contains(d) {
                settled(before, d)
            } else {
                d
            } by {
            assert forall|d: ContradictionV| before.contradictions.contains(d) implies (if rest.contains(step(d)) {
                settled(middle, step(d))
            } else {
                step(d)
            }) == if items.contains(d) {
                settled(before, d)
            } else {
                d
            } by {
                assert(items.to_set().contains(d) <==> rest.to_set().contains(d) || d == pair);
                if d == pair {
                    if rest.contains(step(d)) {
                        let i = rest.index_of(step(d));
                        assert(items[i + 1] == step(d));
                        assert(before.contradictions.contains(items[i + 1]) && before.contradictions.contains(pair));
                        assert(step(d) == pair);
                    }
                } else {
                    assert(step(d) == d);
                }
            }
            if after.contradictions.contains(c) {
                let m = choose|m: ContradictionV| #[trigger]
                    middle.contradictions.contains(m) && c == if rest.contains(m) {
                        settled(middle, m)
                    } else {
                        m
                    };
                let d = choose|d: ContradictionV| #[trigger] before.contradictions.contains(d) && m == step(d);
                assert(before.contradictions.contains(d));
            }
            if exists|d: ContradictionV| #[trigger]
                before.contradictions.contains(d) && c == if items.contains(d) {
                    settled(before, d)
                } else {
                    d
                } {
                let d = choose|d: ContradictionV| #[trigger]
                    before.contradictions.contains(d) && c == if items.contains(d) {
                        settled(before, d)
                    } else {
                        d
                    };
                assert(middle.contradictions.contains(step(d)));
            }
        }
    }
}

/// The same edges tie the same nodes.
proof fn lemma_same_edges(a: StoreV, b: StoreV, src: Seq<char>, dst: Seq<char>, kind: EdgeKind)
    requires
        a.edges == b.edges,
    ensures
        tied(a, src, dst, kind) == tied(b, src, dst, kind),
{
}

/// Consolidation changes trust scores, settles exactly those contradictions of which
/// one node supersedes the other, and changes nothing else. It reports how many
/// contradictions are left open.
pub proof fn law_consolidation_settles_what_is_superseded<F: Fn(RealBits, i64, i64) -> Option<RealBits>>(
    before: StoreV,
    log: Seq<Exchange>,
    after: StoreV,
    adjusted: F,
    report: ConsolidationReport,
)
    requires
        tidy(before),
        pairs_keyed(before),
        consolidates(log, adjusted, Ok(report)),
        runs(before, log, after),
    ensures
        pairs_keyed(after),
        after.contradictions == before.contradictions.map(|c: ContradictionV| settled(before, c)),
        report.contradictions_found == opened(after).len(),
        differs_in(StoreV { contradictions: after.contradictions, ..before }, after, 5),
{
    let r = Read::<ConsolidationReport>::Ok(report);
    let one = lemma_runs_split(before, log, after, 1);
    lemma_runs_one(before, log.take(1), one);
    assert(log.take(1)[0] == log[0]);
    let rest = log.skip(1);
    let nodes = readable(rows_of(log[0].reply)->Ok_0);
    let (weighing, adjustments, settling) = choose|
        weighing: Seq<Exchange>,
        adjustments: nat,
        settling: Seq<Exchange>,
    | #[trigger] consolidated(rest, weighing, adjustments, settling, nodes, adjusted, r);
    let adjust = |log: Seq<Exchange>, node: (Seq<char>, RealBits), r: Read<bool>| adjusts(adjusted, log, node, r);
    let at = weighing.len() as int;
    let two = lemma_runs_split(one, rest, after, at);
    lemma_in_turn_all(weighing, nodes, adjust, 0, Ok(adjustments), |e: Exchange| sets_column(e, 5));
    lemma_sets_column(one, weighing, two, 5);
    let later = rest.skip(at);
    let three = lemma_runs_split(two, later, after, 1);
    lemma_runs_one(two, later.take(1), three);
    assert(later.take(1)[0] == rest[at]);
    assert(later.skip(1) =~= settling);
    let pairs = open_contradictions_of(rest[at].reply)->Ok_0;
    let holds = |c: ContradictionV| two.contradictions.contains(c) && !c.resolved;
    let read = |row: Seq<SqlV>| open_contradiction_row(row);
    assert forall|c: ContradictionV| holds(c) implies read(#[trigger] contradiction_cells(c)) == Read::<
        ContradictionV,
    >::Ok(c) by {
        lemma_contradiction_reads_back(c);
    }
    lemma_contradictions_are_read(rest[at].reply, holds, read, pairs);
    assert forall|i: int| 0 <= i < pairs.len() implies two.contradictions.contains(#[trigger] pairs[i]) by {
        assert(pairs.contains(pairs[i]));
    }
    let count = (pairs.len() - report.contradictions_found) as nat;
    lemma_settled_all(two, settling, after, pairs, 0, count);
    assert forall|c: ContradictionV| superseded(two, c) == superseded(before, c) by {
        lemma_same_edges(before, two, c.node_a, c.node_b, EdgeKind::Supersedes);
        lemma_same_edges(before, two, c.node_b, c.node_a, EdgeKind::Supersedes);
    }
    assert forall|d: ContradictionV| two.contradictions.contains(d) implies (if pairs.contains(d) {
        settled(two, d)
    } else {
        d
    }) == settled(before, d) by {}
    let all = before.contradictions.map(|c: ContradictionV| settled(before, c));
    assert(after.contradictions =~= all) by {
        assert forall|c: ContradictionV| after.contradictions.contains(c) <==> all.contains(c) by {
            if after.contradictions.contains(c) {
                let d = choose|d: ContradictionV| #[trigger]
                    two.contradictions.contains(d) && c == if pairs.contains(d) {
                        settled(two, d)
                    } else {
                        d
                    };
                assert(before.contradictions.contains(d) && c == settled(before, d));
            }
            if all.contains(c) {
                let d = choose|d: ContradictionV| before.contradictions.contains(d) && c == settled(before, d);
                assert(two.contradictions.contains(d));
            }
        }
    }
    let set = pairs.to_set();
    seq_to_set_is_finite(pairs);
    pairs.unique_seq_to_set();
    let done = set.filter(|c: ContradictionV| superseded(two, c));
    let left = set.difference(done);
    assert(opened(after) =~= left) by {
        assert forall|c: ContradictionV| opened(after).contains(c) <==> left.contains(c) by {
            if opened(after).contains(c) {
                let d = choose|d: ContradictionV| #[trigger]
                    two.contradictions.contains(d) && c == if pairs.contains(d) {
                        settled(two, d)
                    } else {
                        d
                    };
                assert(c == d);
                assert(pairs.contains(c));
            }
            if left.contains(c) {
                assert(pairs.contains(c));
                assert(two.contradictions.contains(c));
                assert(after.contradictions.contains(c));
            }
        }
    }
    assert(set =~= left.union(done));
    vstd::set_lib::lemma_set_disjoint_lens(left, done);
    let plain = StoreV { contradictions: after.contradictions, ..before };
    assert forall|x: Seq<char>| plain.nodes.contains_key(x) implies #[trigger] after.nodes[x] == plain.nodes[x].update(
        5,
        after.nodes[x][5],
    ) by {
        assert(two.nodes[x] == before.nodes[x].update(5, two.nodes[x][5]));
    }
}

/// Rows that can all be read are all read.
proof fn lemma_readable(rows: Seq<RowV>)
    requires
        forall|i: int| 0 <= i < rows.len() ==> (#[trigger] rows[i] matches Ok(row) && trust_row(row) is Ok),
    ensures
        readable(rows).len() == rows.len(),
    decreases rows.len(),
{
    if rows.len() > 0 {
        let rest = rows.drop_last();
        assert forall|i: int| 0 <= i < rest.len() implies (#[trigger] rest[i] matches Ok(row) && trust_row(row) is Ok) by {
            assert(rest[i] == rows[i]);
        }
        lemma_readable(rest);
        assert(rows[rows.len() - 1] == rows.last());
    }
}

/// Consolidation weighs every node, where each has a trust score that can be read,
/// and reports how many there are.
pub proof fn law_consolidation_weighs_every_node<F: Fn(RealBits, i64, i64) -> Option<RealBits>>(
    before: StoreV,
    log: Seq<Exchange>,
    after: StoreV,
    adjusted: F,
    report: ConsolidationReport,
)
    requires
        tidy(before),
        forall|x: Seq<char>| #[trigger] before.nodes.contains_key(x) ==> before.nodes[x][5] is Real,
        consolidates(log, adjusted, Ok(report)),
        runs(before, log, after),
    ensures
        report.nodes_updated == before.nodes.len(),
{
    let one = lemma_runs_split(before, log, after, 1);
    lemma_runs_one(before, log.take(1), one);
    assert(log.take(1)[0] == log[0]);
    let among = |row: Seq<SqlV>|
        exists|x: Seq<char>| #[trigger]
            before.nodes.contains_key(x) && row == seq![before.nodes[x][0], before.nodes[x][5]];
    let rows = choose|rows: Seq<Seq<SqlV>>| #[trigger]
        answers(log[0].reply, rows) && rows.no_duplicates() && forall|row: Seq<SqlV>| #[trigger]
            rows.contains(row) <==> among(row);
    let views = rows_of(log[0].reply)->Ok_0;
    let ids = Seq::new(rows.len(), |i: int| rows[i][0]->Text_0);
    assert forall|i: int| 0 <= i < rows.len() implies {
        &&& before.nodes.contains_key(#[trigger] ids[i])
        &&& rows[i] == seq![before.nodes[ids[i]][0], before.nodes[ids[i]][5]]
        &&& views[i] == RowV::Ok(rows[i])
        &&& trust_row(rows[i]) is Ok
    } by {
        assert(rows.contains(rows[i]));
        let x = choose|x: Seq<char>| #[trigger]
            before.nodes.contains_key(x) && rows[i] == seq![before.nodes[x][0], before.nodes[x][5]];
        assert(rows[i][0] == SqlV::Text(x) && rows[i][1] == before.nodes[x][5]);
    }
    assert forall|i: int| 0 <= i < views.len() implies (#[trigger] views[i] matches Ok(row) && trust_row(row) is Ok) by {
        assert(before.nodes.contains_key(ids[i]));
    }
    lemma_readable(views);
    assert(ids.no_duplicates()) by {
        assert forall|i: int, j: int| 0 <= i < ids.len() && 0 <= j < ids.len() && i != j implies ids[i] != ids[j] by {
            assert(rows[i] != rows[j]);
            assert(before.nodes.contains_key(ids[i]) && before.nodes.contains_key(ids[j]));
        }
    }
    ids.unique_seq_to_set();
    assert(ids.to_set() =~= before.nodes.dom()) by {
        assert forall|x: Seq<char>| ids.to_set().contains(x) <==> before.nodes.dom().contains(x) by {
            if ids.contains(x) {
                assert(before.nodes.contains_key(ids[ids.index_of(x)]));
            }
            if before.nodes.contains_key(x) {
                let row = seq![before.nodes[x][0], before.nodes[x][5]];
                assert(among(row));
                assert(rows.contains(row));
                let i = rows.index_of(row);
                assert(row[0] == SqlV::Text(x));
                assert(ids[i] == x);
            }
        }
    }
    let nodes = readable(views);
    let rest = log.skip(1);
    let (weighing, adjustments, settling) = choose|
        weighing: Seq<Exchange>,
        adjustments: nat,
        settling: Seq<Exchange>,
    | #[trigger] consolidated(rest, weighing, adjustments, settling, nodes, adjusted, Ok(report));
}

/// A second consolidation finds nothing new to settle: where neither edges nor
/// contradictions changed in between, it leaves the contradictions as they are and
/// reports as many.
pub proof fn law_second_consolidation_settles_nothing<
    F: Fn(RealBits, i64, i64) -> Option<RealBits>,
    G: Fn(RealBits, i64, i64) -> Option<RealBits>,
>(
    before: StoreV,
    log: Seq<Exchange>,
    middle: StoreV,
    adjusted: F,
    report: ConsolidationReport,
    later: StoreV,
    log2: Seq<Exchange>,
    after: StoreV,
    adjusted2: G,
    report2: ConsolidationReport,
)
    requires
        tidy(before),
        pairs_keyed(before),
        consolidates(log, adjusted, Ok(report)),
        runs(before, log, middle),
        tidy(later),
        later.edges == middle.edges,
        later.contradictions == middle.contradictions,
        consolidates(log2, adjusted2, Ok(report2)),
        runs(later, log2, after),
    ensures
        after.contradictions == later.contradictions,
        report2.contradictions_found == report.contradictions_found,
{
    law_consolidation_settles_what_is_superseded(before, log, middle, adjusted, report);
    assert(pairs_keyed(later)) by {
        assert forall|a: ContradictionV, b: ContradictionV|
            #![trigger later.contradictions.contains(a), later.contradictions.contains(b)]
            later.contradictions.contains(a) && later.contradictions.contains(b) && a.node_a == b.node_a && a.node_b
                == b.node_b implies a == b by {
            assert(middle.contradictions.contains(a) && middle.contradictions.contains(b));
        }
    }
    law_consolidation_settles_what_is_superseded(later, log2, after, adjusted2, report2);
    assert forall|c: ContradictionV| superseded(later, c) == superseded(before, c) by {
        lemma_same_edges(before, later, c.node_a, c.node_b, EdgeKind::Supersedes);
        lemma_same_edges(before, later, c.node_b, c.node_a, EdgeKind::Supersedes);
    }
    assert forall|c: ContradictionV| #[trigger] later.contradictions.contains(c) implies settled(later, c) == c by {
        let d = choose|d: ContradictionV| before.contradictions.contains(d) && c == settled(before, d);
    }
    assert(after.contradictions =~= later.contradictions) by {
        assert forall|c: ContradictionV| after.contradictions.contains(c) <==> later.contradictions.contains(c) by {
            if after.contradictions.contains(c) {
                let d = choose|d: ContradictionV| later.contradictions.contains(d) && c == settled(later, d);
                assert(settled(later, d) == d);
            }
            if later.contradictions.contains(c) {
                assert(settled(later, c) == c);
            }
        }
    }
    assert(opened(after) =~= opened(middle));
}

/// The importances that were stored one after the other, for different nodes, are
/// there in the end.
proof fn lemma_importances_are_kept(before: StoreV, log: Seq<Exchange>, after: StoreV, at: int)
    requires
        tidy(before),
        forall|i: int| 0 <= i < log.len() ==> sets_column(#[trigger] log[i], 4),
        forall|i: int| 0 <= i < log.len() ==> (#[trigger] log[i]).reply matches ReplyV::Changed(Ok(_)),
        forall|i: int, j: int|
            0 <= i < j < log.len() ==> text_at((#[trigger] log[i]).statement, 1) != text_at(
                (#[trigger] log[j]).statement,
                1,
            ),
        0 <= at < log.len(),
        before.nodes.contains_key(text_at(log[at].statement, 1)),
        runs(before, log, after),
    ensures
        after.nodes[text_at(log[at].statement, 1)][4] == log[at].statement.params[0],
{
    let id = text_at(log[at].statement, 1);
    let first = log.take(at + 1);
    let last = log.skip(at + 1);
    let middle = lemma_runs_split(before, log, after, at + 1);
    let here = lemma_runs_split(before, first, middle, at);
    assert forall|i: int| 0 <= i < first.take(at).len() implies sets_column(#[trigger] first.take(at)[i], 4) by {
        assert(first.take(at)[i] == log[i]);
    }
    lemma_sets_column(before, first.take(at), here, 4);
    lemma_runs_one(here, first.skip(at), middle);
    assert(first.skip(at)[0] == log[at]);
    assert(sets_column(log[at], 4));
    assert(here.nodes.contains_key(id));
    assert(middle.nodes[id][4] == log[at].statement.params[0]);
    assert forall|i: int| 0 <= i < first.len() implies sets_column(#[trigger] first[i], 4) by {
        assert(first[i] == log[i]);
    }
    lemma_sets_column(before, first, middle, 4);
    assert forall|i: int| 0 <= i < last.len() implies sets_column(#[trigger] last[i], 4) by {
        assert(last[i] == log[i + at + 1]);
    }
    lemma_sets_column(middle, last, after, 4);
    assert forall|i: int| 0 <= i < last.len() && (#[trigger] last[i]).reply is Changed implies text_at(
        last[i].statement,
        1,
    ) != id by {
        assert(last[i] == log[i + at + 1]);
        assert(text_at(log[at].statement, 1) != text_at(log[i + at + 1].statement, 1));
    }
}

/// Decay changes importances, of nodes that were not accessed for a day, and nothing
/// else. The new importance of each node that may decay follows from its own, its
/// decay rate and how often it decays.
pub proof fn law_decay_changes_the_importance_of_rested_nodes<F: Fn(RealBits, RealBits, u64) -> RealBits>(
    before: StoreV,
    log: Seq<Exchange>,
    after: StoreV,
    now: i64,
    interval: u64,
    decayed: F,
)
    requires
        tidy(before),
        i64::MIN + DECAY_REST_SECS <= now,
        decays(log, now, interval, decayed, Ok(())),
        runs(before, log, after),
    ensures
        differs_in(before, after, 4),
        forall|x: Seq<char>|
            before.nodes.contains_key(x) && !rested(before.nodes[x], (now - DECAY_REST_SECS) as i64)
                ==> #[trigger] after.nodes[x] == before.nodes[x],
        forall|i: int|
            0 <= i < decayable_of(log[0].reply)->Ok_0.len() ==> {
                let node = #[trigger] decayable_of(log[0].reply)->Ok_0[i];
                &&& before.nodes.contains_key(node.0)
                &&& after.nodes[node.0][4] matches SqlV::Real(importance) && call_ensures(
                    decayed,
                    (node.1, node.2, decay_steps(now, node.3, interval) as u64),
                    importance,
                )
            },
{
    let since = (now - DECAY_REST_SECS) as i64;
    let one = lemma_runs_split(before, log, after, 1);
    lemma_runs_one(before, log.take(1), one);
    assert(log.take(1)[0] == log[0]);
    let nodes = decayable_of(log[0].reply)->Ok_0;
    let rows = choose|rows: Seq<Seq<SqlV>>| #[trigger]
        answers(log[0].reply, rows) && rows.no_duplicates() && forall|row: Seq<SqlV>| #[trigger]
            rows.contains(row) ==> exists|x: Seq<char>| #[trigger]
                before.nodes.contains_key(x) && rested(before.nodes[x], since) && row == seq![
                    before.nodes[x][0],
                    before.nodes[x][4],
                    before.nodes[x][9],
                    last_used(before.nodes[x]),
                ];
    let views = rows_of(log[0].reply)->Ok_0;
    law_all_rows_are_read(views, |row: Seq<SqlV>| decayable_row(row));
    assert forall|i: int| 0 <= i < nodes.len() implies {
        let row = before.nodes[(#[trigger] nodes[i]).0];
        &&& before.nodes.contains_key(nodes[i].0)
        &&& rested(row, since)
        &&& rows[i] == seq![row[0], row[4], row[9], last_used(row)]
    } by {
        assert(views[i] == RowV::Ok(rows[i]));
        assert(rows.contains(rows[i]));
        let x = choose|x: Seq<char>| #[trigger]
            before.nodes.contains_key(x) && rested(before.nodes[x], since) && rows[i] == seq![
                before.nodes[x][0],
                before.nodes[x][4],
                before.nodes[x][9],
                last_used(before.nodes[x]),
            ];
        assert(rows[i][0] == SqlV::Text(x));
    }
    let steps = log.skip(1);
    assert forall|i: int| 0 <= i < steps.len() implies {
        &&& sets_column(#[trigger] steps[i], 4)
        &&& steps[i].reply matches ReplyV::Changed(Ok(_))
        &&& text_at(steps[i].statement, 1) == nodes[i].0
        &&& decayed_one(steps[i], nodes[i], now, interval, decayed)
    } by {
        assert(steps[i] == log[i + 1]);
        assert(decayed_one(log[i + 1], nodes[i], now, interval, decayed));
        if i + 1 == log.len() - 1 {
            assert(log.last() == log[i + 1]);
        }
        assert(completed(log[i + 1].reply) is Ok);
    }
    lemma_sets_column(before, steps, after, 4);
    assert forall|x: Seq<char>|
        before.nodes.contains_key(x) && !rested(before.nodes[x], since) implies #[trigger] after.nodes[x]
        == before.nodes[x] by {
        assert forall|i: int| 0 <= i < steps.len() && (#[trigger] steps[i]).reply is Changed implies text_at(
            steps[i].statement,
            1,
        ) != x by {
            assert(rested(before.nodes[nodes[i].0], since));
        }
    }
    assert forall|i: int, j: int| 0 <= i < j < steps.len() implies text_at((#[trigger] steps[i]).statement, 1)
        != text_at((#[trigger] steps[j]).statement, 1) by {
        assert(rows[i] != rows[j]);
        assert(before.nodes.contains_key(nodes[i].0) && before.nodes.contains_key(nodes[j].0));
    }
    assert forall|i: int| 0 <= i < nodes.len() implies {
        let node = #[trigger] nodes[i];
        &&& before.nodes.contains_key(node.0)
        &&& after.nodes[node.0][4] matches SqlV::Real(importance) && call_ensures(
            decayed,
            (node.1, node.2, decay_steps(now, node.3, interval) as u64),
            importance,
        )
    } by {
        assert(before.nodes.contains_key(nodes[i].0));
        assert(text_at(steps[i].statement, 1) == nodes[i].0);
        lemma_importances_are_kept(before, steps, after, i);
    }
}

/// A fact that was stored is there, and hangs under the session that it derives from
/// where the ID of its edge was new.
pub proof fn law_extracted_fact_hangs_under_its_session(
    before: StoreV,
    log: Seq<Exchange>,
    after: StoreV,
    session: Seq<char>,
    node: NodeV,
    edge_id: Seq<char>,
    now: i64,
    weight: RealBits,
)
    requires
        ran(log, storing(session, node, edge_id, now, weight), Ok(())),
        runs(before, log, after),
    ensures
        after.nodes == before.nodes.insert(node.id, node_cells(node)),
        log[1].reply matches ReplyV::Changed(Ok(n)) && n > 0 ==> hangs_under(
            after,
            SqlV::Text(node.id),
            SqlV::Text(session),
        ),
{
    let statements = storing(session, node, edge_id, now, weight);
    let one = lemma_runs_two(before, log, after);
    assert(log[0].statement == statements[0]);
    assert(log[1].statement == statements[1]);
    if log[1].reply matches ReplyV::Changed(Ok(n)) && n > 0 {
        let edge = edge_cells(new_edge(edge_id, node.id, session, EdgeKind::DerivesFrom, now, weight));
        assert(after.edges.contains(edge));
        assert(tied(after, node.id, session, EdgeKind::DerivesFrom));
    }
}

/// A session that was compacted is marked: the mark is added to the end of its body,
/// and nothing else changes.
pub proof fn law_compacted_session_is_marked(
    before: StoreV,
    e: Exchange,
    after: StoreV,
    session: Seq<char>,
    count: nat,
)
    requires
        tidy(before),
        e.statement == mark_statement(session, count),
        e.reply matches ReplyV::Changed(Ok(_)),
        does(before, e, after),
    ensures
        after == with_row(
            before,
            session,
            before.nodes[session].update(
                3,
                SqlV::Text(text_in(before.nodes[session][3]) + compaction_mark(count)),
            ),
        ),
        before.nodes.contains_key(session) && node_row(before.nodes[session]) is Ok ==> node_row(after.nodes[session])
            == Read::<NodeV>::Ok(
            {
                let node = node_row(before.nodes[session])->Ok_0;
                NodeV {
                    body: Some(
                        match node.body {
                            Some(body) => body + compaction_mark(count),
                            None => compaction_mark(count),
                        },
                    ),
                    ..node
                }
            },
        ),
{
    assert(Seq::<char>::empty() + compaction_mark(count) =~= compaction_mark(count));
}

}
