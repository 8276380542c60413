//! What upkeep is for: which scores change, by how much evidence, and by how much
//! time.

use vstd::prelude::*;

use crate::db::queries::{decayable_of, open_contradictions_of, RESOLVE_CONTRADICTION};
use crate::db::rows::{count_of, decayable_row, law_all_rows_are_read, Read};
use crate::db::{rows_of, Exchange, RowV, SqlV};
use crate::store::graph::tidy;
use crate::store::upkeep::{
    law_decay_changes_the_importance_of_rested_nodes, lemma_in_turn_all, lemma_sets_column, sets_column,
};
use crate::store::{
    answers, counts_to, doubts, last_used, lemma_runs_none, lemma_runs_one, lemma_runs_split, may_decay, runs, scored,
    supporters, text_at, StoreV,
};
use crate::types::{ConsolidationReport, ContradictionV, RealBits};
use crate::upkeep::{
    adjusts, consolidated, consolidates, decay_steps, decayed_one, decays, in_turn, readable, settles, trust_row,
};

verus! {

/// The trust in one node is weighed: against how many edges support it that leave a
/// node trusted above seven tenths, and how many open contradictions name it. Where
/// a new score comes of it, whatever the two numbers are, that score is stored and
/// counts as an adjustment; where none does, nothing is stored.
pub proof fn law_trust_is_weighed_by_the_evidence<F: Fn(RealBits, i64, i64) -> Option<RealBits>>(
    before: StoreV,
    log: Seq<Exchange>,
    after: StoreV,
    adjusted: F,
    id: Seq<char>,
    trust: RealBits,
    did: bool,
) -> (verdict: Option<RealBits>)
    requires
        adjusts(adjusted, log, (id, trust), Ok(did)),
        runs(before, log, after),
    ensures
        exists|supports: i64, contradictions: i64| #[trigger]
            call_ensures(adjusted, (trust, supports, contradictions), verdict) && contradictions == doubts(
                before,
                id,
            ).len() && supports >= 0 && (scored(before) ==> supports == supporters(
                before,
                SqlV::Text(id),
                0x3fe6_6666_6666_6666,
            ).len()),
        did == verdict is Some,
        after == match verdict {
            Some(score) if before.nodes.contains_key(id) => StoreV {
                nodes: before.nodes.insert(id, before.nodes[id].update(5, SqlV::Real(score))),
                ..before
            },
            _ => before,
        },
{
    let one = lemma_runs_split(before, log, after, 1);
    lemma_runs_one(before, log.take(1), one);
    assert(log.take(1)[0] == log[0]);
    let rest = log.skip(1);
    let two = lemma_runs_split(one, rest, after, 1);
    lemma_runs_one(one, rest.take(1), two);
    assert(rest.take(1)[0] == log[1]);
    let supports = count_of(log[0].reply)->Ok_0;
    let contradictions = count_of(log[1].reply)->Ok_0;
    assert(exists|n: i64| #[trigger] counts_to(log[0].reply, n) && n == supports);
    assert(exists|n: i64| #[trigger] counts_to(log[1].reply, n) && n == contradictions);
    let verdict = choose|verdict: Option<RealBits>| #[trigger]
        call_ensures(adjusted, (trust, supports, contradictions), verdict) && match verdict {
            None => log.len() == 2 && did == false,
            Some(_) => log.len() == 3 && did == true && log[2].statement.params == seq![
                SqlV::Real(verdict->0),
                SqlV::Text(id),
            ],
        };
    let last = rest.skip(1);
    if verdict is Some {
        lemma_runs_one(two, last, after);
        assert(last[0] == log[2]);
    } else {
        lemma_runs_none(two, last, after);
    }
    assert(call_ensures(adjusted, (trust, supports, contradictions), verdict));
    verdict
}

/// How many scores are new.
pub open spec fn new_scores(verdicts: Seq<Option<RealBits>>) -> nat
    decreases verdicts.len(),
{
    if verdicts.len() == 0 {
        0
    } else {
        new_scores(verdicts.skip(1)) + if verdicts[0] is Some {
            1nat
        } else {
            0nat
        }
    }
}

/// One node was weighed, with a trust score: against the contradictions in the store
/// at the start (`first`) and the support in the store when its turn came.
pub open spec fn weighed_one<F: Fn(RealBits, i64, i64) -> Option<RealBits>>(
    first: StoreV,
    before: StoreV,
    after: StoreV,
    id: Seq<char>,
    trust: RealBits,
    verdict: Option<RealBits>,
    adjusted: F,
) -> bool {
    &&& exists|supports: i64, contradictions: i64| #[trigger]
        call_ensures(adjusted, (trust, supports, contradictions), verdict) && contradictions == doubts(first, id).len()
            && supports >= 0 && (scored(before) ==> supports == supporters(
            before,
            SqlV::Text(id),
            0x3fe6_6666_6666_6666,
        ).len())
    &&& after == match verdict {
        Some(score) if before.nodes.contains_key(id) => StoreV {
            nodes: before.nodes.insert(id, before.nodes[id].update(5, SqlV::Real(score))),
            ..before
        },
        _ => before,
    }
}

/// Some nodes were weighed one after the other. `stages` are the stores in between,
/// `verdicts` what came of each.
pub open spec fn weighed<F: Fn(RealBits, i64, i64) -> Option<RealBits>>(
    stages: Seq<StoreV>,
    nodes: Seq<(Seq<char>, RealBits)>,
    verdicts: Seq<Option<RealBits>>,
    adjusted: F,
) -> bool {
    &&& stages.len() == nodes.len() + 1
    &&& verdicts.len() == nodes.len()
    &&& forall|i: int|
        0 <= i < nodes.len() ==> weighed_one(
            stages[0],
            stages[i],
            stages[i + 1],
            (#[trigger] nodes[i]).0,
            nodes[i].1,
            verdicts[i],
            adjusted,
        )
}

/// Nodes that are dealt with in turn are weighed one after the other.
proof fn lemma_weighed<F: Fn(RealBits, i64, i64) -> Option<RealBits>>(
    before: StoreV,
    log: Seq<Exchange>,
    after: StoreV,
    nodes: Seq<(Seq<char>, RealBits)>,
    adjusted: F,
    sofar: nat,
    count: nat,
) -> (r: (Seq<StoreV>, Seq<Option<RealBits>>))
    requires
        in_turn(
            log,
            nodes,
            |log: Seq<Exchange>, node: (Seq<char>, RealBits), r: Read<bool>| adjusts(adjusted, log, node, r),
            sofar,
            Ok(count),
        ),
        runs(before, log, after),
    ensures
        weighed(r.0, nodes, r.1, adjusted),
        r.0[0] == before,
        r.0.last() == after,
        count == sofar + new_scores(r.1),
    decreases nodes.len(),
{
    let one = |log: Seq<Exchange>, node: (Seq<char>, RealBits), r: Read<bool>| adjusts(adjusted, log, node, r);
    if nodes.len() == 0 {
        lemma_runs_none(before, log, after);
        (seq![before], Seq::empty())
    } else {
        let (n, did) = choose|n: int, did: Read<bool>|
            0 <= n <= log.len() && #[trigger] one(log.take(n), nodes[0], did) && match did {
                Err(f) => false,
                Ok(did) => in_turn(
                    log.skip(n),
                    nodes.skip(1),
                    one,
                    if did {
                        sofar + 1
                    } else {
                        sofar
                    },
                    Ok(count),
                ),
            };
        let middle = lemma_runs_split(before, log, after, n);
        let verdict = law_trust_is_weighed_by_the_evidence(
            before,
            log.take(n),
            middle,
            adjusted,
            nodes[0].0,
            nodes[0].1,
            did->Ok_0,
        );
        let (stages, verdicts) = lemma_weighed(
            middle,
            log.skip(n),
            after,
            nodes.skip(1),
            adjusted,
            if did->Ok_0 {
                sofar + 1
            } else {
                sofar
            },
            count,
        );
        let all = seq![before] + stages;
        let every = seq![verdict] + verdicts;
        assert(every.skip(1) =~= verdicts);
        assert forall|i: int| 0 <= i < nodes.len() implies weighed_one(
            all[0],
            all[i],
            all[i + 1],
            (#[trigger] nodes[i]).0,
            nodes[i].1,
            every[i],
            adjusted,
        ) by {
            if i > 0 {
                assert(nodes.skip(1)[i - 1] == nodes[i]);
                assert(all[i] == stages[i - 1] && all[i + 1] == stages[i]);
                assert(every[i] == verdicts[i - 1]);
                assert(doubts(middle, nodes[i].0) == doubts(before, nodes[i].0));
            } else {
                assert(all[1] == stages[0]);
            }
        }
        (all, every)
    }
}

/// Nodes that were weighed keep what came of their own turn: the trust score of each
/// is the new one where there was one, and otherwise the one that it had. Nothing but
/// trust scores changed.
proof fn lemma_weighed_scores<F: Fn(RealBits, i64, i64) -> Option<RealBits>>(
    stages: Seq<StoreV>,
    nodes: Seq<(Seq<char>, RealBits)>,
    verdicts: Seq<Option<RealBits>>,
    adjusted: F,
    upto: int,
)
    requires
        weighed(stages, nodes, verdicts, adjusted),
        0 <= upto <= nodes.len(),
        forall|i: int, j: int| 0 <= i < j < nodes.len() ==> (#[trigger] nodes[i]).0 != (#[trigger] nodes[j]).0,
        forall|i: int| 0 <= i < nodes.len() ==> stages[0].nodes.contains_key((#[trigger] nodes[i]).0),
        forall|x: Seq<char>| #[trigger] stages[0].nodes.contains_key(x) ==> stages[0].nodes[x].len() == 11,
    ensures
        stages[upto].nodes.dom() == stages[0].nodes.dom(),
        stages[upto] == (StoreV { nodes: stages[upto].nodes, ..stages[0] }),
        forall|i: int|
            0 <= i < nodes.len() ==> stages[upto].nodes[(#[trigger] nodes[i]).0] == if i < upto && verdicts[i] is Some {
                stages[0].nodes[nodes[i].0].update(5, SqlV::Real(verdicts[i]->0))
            } else {
                stages[0].nodes[nodes[i].0]
            },
    decreases upto,
{
    if upto > 0 {
        lemma_weighed_scores(stages, nodes, verdicts, adjusted, upto - 1);
        let id = nodes[upto - 1].0;
        assert(stages[upto - 1].nodes.contains_key(id));
        assert(stages[upto].nodes.dom() =~= stages[0].nodes.dom());
        assert forall|i: int| 0 <= i < nodes.len() implies stages[upto].nodes[(#[trigger] nodes[i]).0] == if i < upto
            && verdicts[i] is Some {
            stages[0].nodes[nodes[i].0].update(5, SqlV::Real(verdicts[i]->0))
        } else {
            stages[0].nodes[nodes[i].0]
        } by {
            assert(stages[0].nodes.contains_key(nodes[i].0));
            if i != upto - 1 {
                assert(nodes[i].0 != id);
            }
        }
    }
}

/// The rows of a list of trust scores that can all be read are read in their order.
proof fn lemma_readable_in_order(rows: Seq<RowV>)
    requires
        forall|i: int| 0 <= i < rows.len() ==> (#[trigger] rows[i] matches Ok(row) && trust_row(row) is Ok),
    ensures
        readable(rows).len() == rows.len(),
        forall|i: int| 0 <= i < rows.len() ==> trust_row(rows[i]->Ok_0) == Read::<(Seq<char>, RealBits)>::Ok(
            #[trigger] readable(rows)[i],
        ),
    decreases rows.len(),
{
    if rows.len() > 0 {
        let rest = rows.drop_last();
        assert forall|i: int| 0 <= i < rest.len() implies (#[trigger] rest[i] matches Ok(row) && trust_row(row) is Ok) by {
            assert(rest[i] == rows[i]);
        }
        lemma_readable_in_order(rest);
        assert(rows[rows.len() - 1] == rows.last());
        assert forall|i: int| 0 <= i < rows.len() implies trust_row(rows[i]->Ok_0) == Read::<(Seq<char>, RealBits)>::Ok(
            #[trigger] readable(rows)[i],
        ) by {
            if i < rest.len() {
                assert(readable(rest)[i] == readable(rows)[i]);
            }
        }
    }
}

/// Consolidation weighs every node once, each with the trust score that it has, and
/// leaves it with what came of that: the new score where there is one, whatever the
/// support and the contradictions that were counted, and otherwise the old one. It
/// reports how many nodes there are and how many scores are new.
pub proof fn law_consolidation_follows_the_evidence<F: Fn(RealBits, i64, i64) -> Option<RealBits>>(
    before: StoreV,
    log: Seq<Exchange>,
    after: StoreV,
    adjusted: F,
    report: ConsolidationReport,
) -> (r: (Seq<StoreV>, Seq<(Seq<char>, RealBits)>, Seq<Option<RealBits>>))
    requires
        tidy(before),
        forall|x: Seq<char>| #[trigger] before.nodes.contains_key(x) ==> before.nodes[x][5] is Real,
        consolidates(log, adjusted, Ok(report)),
        runs(before, log, after),
    ensures
        weighed(r.0, r.1, r.2, adjusted),
        r.0[0] == before,
        forall|i: int, j: int| 0 <= i < j < r.1.len() ==> (#[trigger] r.1[i]).0 != (#[trigger] r.1[j]).0,
        forall|i: int|
            0 <= i < r.1.len() ==> before.nodes.contains_key((#[trigger] r.1[i]).0) && before.nodes[r.1[i].0][5]
                == SqlV::Real(r.1[i].1),
        forall|x: Seq<char>| #[trigger]
            before.nodes.contains_key(x) ==> exists|i: int| 0 <= i < r.1.len() && (#[trigger] r.1[i]).0 == x,
        after.nodes.dom() == before.nodes.dom(),
        after.edges == before.edges,
        forall|i: int|
            0 <= i < r.1.len() ==> after.nodes[(#[trigger] r.1[i]).0] == match r.2[i] {
                Some(score) => before.nodes[r.1[i].0].update(5, SqlV::Real(score)),
                None => before.nodes[r.1[i].0],
            },
        report.nodes_updated == r.1.len(),
        report.trust_adjustments == new_scores(r.2),
{
    let one = lemma_runs_split(before, log, after, 1);
    lemma_runs_one(before, log.take(1), one);
    assert(log.take(1)[0] == log[0]);
    let among = |row: Seq<SqlV>|
        exists|x: Seq<char>| #[trigger]
            before.nodes.contains_key(x) && row == seq![before.nodes[x][0], before.nodes[x][5]];
    let rows = choose|rows: Seq<Seq<SqlV>>| #[trigger]
        answers(log[0].reply, rows) && rows.no_duplicates() && forall|row: Seq<SqlV>| #[trigger]
            rows.contains(row) <==> among(row);
    let views = rows_of(log[0].reply)->Ok_0;
    let nodes = readable(views);
    let ids = Seq::new(rows.len(), |i: int| rows[i][0]->Text_0);
    assert forall|i: int| 0 <= i < rows.len() implies {
        &&& before.nodes.contains_key(#[trigger] ids[i])
        &&& rows[i] == seq![SqlV::Text(ids[i]), before.nodes[ids[i]][5]]
        &&& views[i] == RowV::Ok(rows[i])
        &&& trust_row(rows[i]) == Read::<(Seq<char>, RealBits)>::Ok((ids[i], before.nodes[ids[i]][5]->Real_0))
    } by {
        assert(rows.contains(rows[i]));
        let x = choose|x: Seq<char>| #[trigger]
            before.nodes.contains_key(x) && rows[i] == seq![before.nodes[x][0], before.nodes[x][5]];
        assert(rows[i][0] == SqlV::Text(x) && rows[i][1] == before.nodes[x][5]);
    }
    assert forall|i: int| 0 <= i < views.len() implies (#[trigger] views[i] matches Ok(row) && trust_row(row) is Ok) by {
        assert(before.nodes.contains_key(ids[i]));
    }
    lemma_readable_in_order(views);
    assert forall|i: int| 0 <= i < nodes.len() implies (#[trigger] nodes[i]).0 == ids[i] && before.nodes.contains_key(
        nodes[i].0,
    ) && before.nodes[nodes[i].0][5] == SqlV::Real(nodes[i].1) by {
        assert(before.nodes.contains_key(ids[i]));
    }
    assert forall|i: int, j: int| 0 <= i < j < nodes.len() implies (#[trigger] nodes[i]).0 != (#[trigger] nodes[j]).0 by {
        assert(rows[i] != rows[j]);
        assert(before.nodes.contains_key(ids[i]) && before.nodes.contains_key(ids[j]));
    }
    assert forall|x: Seq<char>| #[trigger] before.nodes.contains_key(x) implies exists|i: int|
        0 <= i < nodes.len() && (#[trigger] nodes[i]).0 == x by {
        let row = seq![before.nodes[x][0], before.nodes[x][5]];
        assert(among(row));
        assert(rows.contains(row));
        let i = rows.index_of(row);
        assert(row[0] == SqlV::Text(x));
        assert(nodes[i].0 == x);
    }
    let rest = log.skip(1);
    let (weighing, adjustments, settling) = choose|
        weighing: Seq<Exchange>,
        adjustments: nat,
        settling: Seq<Exchange>,
    | #[trigger] consolidated(rest, weighing, adjustments, settling, nodes, adjusted, Ok(report));
    let two = lemma_runs_split(before, rest, after, weighing.len() as int);
    let (stages, verdicts) = lemma_weighed(before, weighing, two, nodes, adjusted, 0, adjustments);
    lemma_weighed_scores(stages, nodes, verdicts, adjusted, nodes.len() as int);
    let later = rest.skip(weighing.len() as int);
    lemma_settling_keeps_nodes(rest, weighing, adjustments, settling, nodes, adjusted, report, two, after);
    (stages, nodes, verdicts)
}

/// A query, or a statement that resolves a contradiction.
spec fn only_resolves(e: Exchange) -> bool {
    e.reply is Rows || e.reply is Changed && e.statement.sql == RESOLVE_CONTRADICTION@
}

/// Resolving contradictions leaves nodes and edges as they are.
proof fn lemma_resolving_keeps(before: StoreV, log: Seq<Exchange>, after: StoreV)
    requires
        forall|i: int| 0 <= i < log.len() ==> only_resolves(#[trigger] log[i]),
        runs(before, log, after),
    ensures
        after.nodes == before.nodes,
        after.edges == before.edges,
    decreases log.len(),
{
    if log.len() == 0 {
        lemma_runs_none(before, log, after);
    } else {
        let k = log.len() - 1;
        let middle = lemma_runs_split(before, log, after, k);
        assert forall|i: int| 0 <= i < log.take(k).len() implies only_resolves(#[trigger] log.take(k)[i]) by {
            assert(log.take(k)[i] == log[i]);
        }
        lemma_resolving_keeps(before, log.take(k), middle);
        lemma_runs_one(middle, log.skip(k), after);
        assert(log.skip(k)[0] == log[k]);
        assert(only_resolves(log[k]));
    }
}

/// What follows the weighing of a consolidation leaves nodes and edges as they are.
proof fn lemma_settling_keeps_nodes<F: Fn(RealBits, i64, i64) -> Option<RealBits>>(
    log: Seq<Exchange>,
    weighing: Seq<Exchange>,
    adjustments: nat,
    settling: Seq<Exchange>,
    nodes: Seq<(Seq<char>, RealBits)>,
    adjusted: F,
    report: ConsolidationReport,
    before: StoreV,
    after: StoreV,
)
    requires
        consolidated(log, weighing, adjustments, settling, nodes, adjusted, Ok(report)),
        runs(before, log.skip(weighing.len() as int), after),
    ensures
        after.nodes == before.nodes,
        after.edges == before.edges,
{
    let at = weighing.len() as int;
    let later = log.skip(at);
    let pairs = open_contradictions_of(log[at].reply)->Ok_0;
    let settle = |log: Seq<Exchange>, pair: ContradictionV, r: Read<bool>|
        settles(log, pair, r);
    let count = (pairs.len() - report.contradictions_found) as nat;
    assert forall|step: Seq<Exchange>, pair: ContradictionV, did: Read<bool>, i: int|
        #![trigger settle(step, pair, did), step[i]]
        settle(step, pair, did) && 0 <= i < step.len() implies only_resolves(step[i]) by {
        if i >= 1 {
            assert(step.skip(1)[i - 1] == step[i]);
        }
        if i >= 2 {
            assert(step.skip(2)[i - 2] == step[i]);
        }
    }
    lemma_in_turn_all(settling, pairs, settle, 0, Ok(count), |e: Exchange| only_resolves(e));
    assert forall|i: int| 0 <= i < later.len() implies only_resolves(#[trigger] later[i]) by {
        if i > 0 {
            assert(later[i] == settling[i - 1]);
            assert((|e: Exchange| only_resolves(e))(settling[i - 1]));
        }
    }
    lemma_resolving_keeps(before, later, after);
}

/// The number of steps of decay is the number of whole intervals since the last
/// access, and one where there was none. An interval of zero counts as one second.
pub proof fn law_decay_steps_are_whole_intervals(now: i64, last_access: i64, interval: u64)
    ensures
        ({
            let each: int = if interval == 0 {
                1
            } else {
                interval as int
            };
            let steps = decay_steps(now, last_access, interval) as int;
            if now - last_access < each {
                steps == 1
            } else {
                steps >= 1 && steps * each <= now - last_access < (steps + 1) * each
            }
        }),
{
    let each: int = if interval == 0 {
        1
    } else {
        interval as int
    };
    let elapsed: int = if now > last_access {
        now - last_access
    } else {
        0
    };
    vstd::arithmetic::div_mod::lemma_fundamental_div_mod(elapsed, each);
    let q = elapsed / each;
    assert(q * each <= elapsed < (q + 1) * each) by (nonlinear_arith)
        requires
            elapsed == each * q + elapsed % each,
            0 <= elapsed % each < each,
    ;
    if elapsed < each {
        assert(q <= 0) by (nonlinear_arith)
            requires
                q * each <= elapsed < each,
                each > 0,
        ;
    } else {
        assert(q >= 1) by (nonlinear_arith)
            requires
                each <= elapsed < (q + 1) * each,
                each > 0,
        ;
    }
}

/// Decay changes exactly the nodes that have a decay rate, are of more importance than
/// a hundredth, and were not accessed for a day. Each gets the importance that
/// follows from its own, its decay rate and the intervals since it was last accessed,
/// or created where it never was. Every other node stays as it was.
pub proof fn law_decay_reaches_every_node_that_has_rested<F: Fn(RealBits, RealBits, u64) -> RealBits>(
    before: StoreV,
    log: Seq<Exchange>,
    after: StoreV,
    now: i64,
    interval: u64,
    decayed: F,
    id: Seq<char>,
)
    requires
        tidy(before),
        scored(before),
        i64::MIN + 86400 <= now,
        decays(log, now, interval, decayed, Ok(())),
        runs(before, log, after),
        before.nodes.contains_key(id),
    ensures
        after.nodes.contains_key(id),
        ({
            let row = before.nodes[id];
            let rests = row[8] is Null || row[8]->Integer_0 < now - 86400;
            let used = if row[8] is Null {
                row[7]
            } else {
                row[8]
            };
            if row[9]->Real_0 > 0 && row[4]->Real_0 > 0x3f84_7ae1_47ae_147b && rests {
                &&& after.nodes[id][4] is Real
                &&& after.nodes[id] == row.update(4, after.nodes[id][4])
                &&& used is Integer
                &&& call_ensures(
                    decayed,
                    (row[4]->Real_0, row[9]->Real_0, decay_steps(now, used->Integer_0, interval) as u64),
                    after.nodes[id][4]->Real_0,
                )
            } else {
                after.nodes[id] == row
            }
        }),
{
    law_decay_changes_the_importance_of_rested_nodes(before, log, after, now, interval, decayed);
    let since = (now - 86400) as i64;
    let one = lemma_runs_split(before, log, after, 1);
    lemma_runs_one(before, log.take(1), one);
    assert(log.take(1)[0] == log[0]);
    let nodes = decayable_of(log[0].reply)->Ok_0;
    let among = |row: Seq<SqlV>|
        exists|x: Seq<char>| #[trigger]
            before.nodes.contains_key(x) && may_decay(before.nodes[x], since) && row == seq![
                before.nodes[x][0],
                before.nodes[x][4],
                before.nodes[x][9],
                last_used(before.nodes[x]),
            ];
    let rows = choose|rows: Seq<Seq<SqlV>>| #[trigger]
        answers(log[0].reply, rows) && rows.no_duplicates() && forall|row: Seq<SqlV>| #[trigger]
            rows.contains(row) <==> among(row);
    let views = rows_of(log[0].reply)->Ok_0;
    law_all_rows_are_read(views, |row: Seq<SqlV>| decayable_row(row));
    let steps = log.skip(1);
    assert forall|i: int| 0 <= i < steps.len() implies {
        &&& sets_column(#[trigger] steps[i], 4)
        &&& text_at(steps[i].statement, 1) == nodes[i].0
    } by {
        assert(steps[i] == log[i + 1]);
        assert(decayed_one(log[i + 1], nodes[i], now, interval, decayed));
    }
    lemma_sets_column(one, steps, after, 4);
    let row = before.nodes[id];
    if may_decay(row, since) {
        let cells = seq![row[0], row[4], row[9], last_used(row)];
        assert(among(cells));
        assert(rows.contains(cells));
        let i = rows.index_of(cells);
        assert(views[i] == RowV::Ok(rows[i]));
        assert(cells[0] == SqlV::Text(id));
        assert(nodes[i].0 == id);
        assert(nodes[i].1 == row[4]->Real_0 && nodes[i].2 == row[9]->Real_0);
    } else {
        assert forall|i: int| 0 <= i < steps.len() && (#[trigger] steps[i]).reply is Changed implies text_at(
            steps[i].statement,
            1,
        ) != id by {
            assert(views[i] == RowV::Ok(rows[i]));
            assert(rows.contains(rows[i]));
            let x = choose|x: Seq<char>| #[trigger]
                before.nodes.contains_key(x) && may_decay(before.nodes[x], since) && rows[i] == seq![
                    before.nodes[x][0],
                    before.nodes[x][4],
                    before.nodes[x][9],
                    last_used(before.nodes[x]),
                ];
            assert(rows[i][0] == SqlV::Text(x));
        }
    }
}

/// The trust scores that are weighed are those of the rows that can be read, in the order of
/// the rows: `at` tells for each which row it comes from. A row that cannot be read is
/// passed over.
pub proof fn law_unreadable_trust_is_passed_over(rows: Seq<RowV>) -> (at: Seq<int>)
    ensures
        at.len() == readable(rows).len(),
        forall|i: int|
            0 <= i < at.len() ==> 0 <= #[trigger] at[i] < rows.len() && rows[at[i]] is Ok && trust_row(rows[at[i]]->Ok_0)
                == Read::<(Seq<char>, RealBits)>::Ok(readable(rows)[i]),
        forall|i: int, j: int| 0 <= i < j < at.len() ==> #[trigger] at[i] < #[trigger] at[j],
        forall|k: int|
            0 <= k < rows.len() && (#[trigger] rows[k]) is Ok && trust_row(rows[k]->Ok_0) is Ok ==> at.contains(k),
    decreases rows.len(),
{
    if rows.len() == 0 {
        Seq::empty()
    } else {
        let rest = rows.drop_last();
        let before = law_unreadable_trust_is_passed_over(rest);
        let last = rows.len() - 1;
        let fits = rows.last() is Ok && trust_row(rows.last()->Ok_0) is Ok;
        let at = if fits {
            before.push(last)
        } else {
            before
        };
        assert forall|i: int| 0 <= i < at.len() implies 0 <= #[trigger] at[i] < rows.len() && rows[at[i]] is Ok
            && trust_row(rows[at[i]]->Ok_0) == Read::<(Seq<char>, RealBits)>::Ok(readable(rows)[i]) by {
            if i < before.len() {
                assert(at[i] == before[i]);
                assert(rest[before[i]] == rows[before[i]]);
                assert(readable(rest)[i] == readable(rows)[i]);
            }
        }
        assert forall|i: int, j: int| 0 <= i < j < at.len() implies #[trigger] at[i] < #[trigger] at[j] by {
            assert(at[i] == before[i]);
            if j < before.len() {
                assert(at[j] == before[j]);
            }
        }
        assert forall|k: int|
            0 <= k < rows.len() && (#[trigger] rows[k]) is Ok && trust_row(rows[k]->Ok_0) is Ok implies at.contains(k) by {
            if k < last {
                assert(rest[k] == rows[k]);
                assert(before.contains(k));
                assert(at[before.index_of(k)] == k);
            } else {
                assert(at[before.len() as int] == k);
            }
        }
        at
    }
}

}
