//! Upkeep of the graph: importance that decays with time, and trust that follows
//! the evidence.
//!
//! The arithmetic on scores is handed in as a function; what is asked of the
//! database, in which order, and what each step rests on is fixed here.

use rusqlite::Connection;
use vstd::prelude::*;

use crate::db::params::no_params;
use crate::db::queries::{
    any_counted, count_contradictions, count_supporting_edges, decayable_of, edge_exists, edge_exists_query,
    get_all_unresolved_contradictions, get_decayable_nodes, open_contradictions_of, resolve_contradiction,
    update_node_importance, update_node_trust, COUNT_CONTRADICTIONS, COUNT_SUPPORTING, DECAY_REST_SECS,
    GET_ALL_UNRESOLVED, GET_DECAYABLE, RESOLVE_CONTRADICTION, UPDATE_IMPORTANCE, UPDATE_TRUST,
};
use crate::db::rows::{count_of, read_real, read_text, real_column, text_column, Read};
use crate::db::{
    completed, continues, history, lemma_since_join, lemma_since_step, query, row_views, rows_of, since, statement,
    Exchange, Row, RowV, SqlV, StatementV,
};
use crate::error::{done, outcome, FaultV, Result};
use crate::types::{ConsolidationReport, ContradictionPair, ContradictionV, EdgeKind, NodeId, RealBits};

verus! {

/// How often a node decays: once for each interval that passed since its last
/// access, and at least once.
pub open spec fn decay_steps(now: i64, last_access: i64, interval: u64) -> nat {
    let elapsed = if now > last_access {
        now - last_access
    } else {
        0
    };
    let each = if interval > 1 {
        interval as int
    } else {
        1
    };
    if elapsed / each > 1 {
        (elapsed / each) as nat
    } else {
        1
    }
}

/// How often a node decays.
pub fn count_decay_steps(now: i64, last_access: i64, interval: u64) -> (r: u64)
    ensures
        r == decay_steps(now, last_access, interval),
{
    let elapsed: i128 = if now > last_access {
        now as i128 - last_access as i128
    } else {
        0
    };
    let each: i128 = if interval > 1 {
        interval as i128
    } else {
        1
    };
    proof {
        vstd::arithmetic::div_mod::lemma_div_is_ordered_by_denominator(elapsed as int, 1, each as int);
        vstd::arithmetic::div_mod::lemma_div_pos_is_pos(elapsed as int, each as int);
    }
    let steps: i128 = elapsed / each;
    if steps > 1 {
        steps as u64
    } else {
        1
    }
}

/// A longer rest never means fewer steps, and there is always one.
pub proof fn law_decay_catches_up(now: i64, later: i64, last_access: i64, interval: u64)
    requires
        now <= later,
    ensures
        1 <= decay_steps(now, last_access, interval) <= decay_steps(later, last_access, interval),
{
    let each = if interval > 1 {
        interval as int
    } else {
        1
    };
    let elapsed = |t: i64| if t > last_access {
        t - last_access
    } else {
        0
    };
    vstd::arithmetic::div_mod::lemma_div_is_ordered(elapsed(now), elapsed(later), each);
}

/// A rest of a whole number of intervals means that many steps.
pub proof fn law_decay_counts_intervals(last_access: i64, interval: u64, steps: nat, now: i64)
    requires
        interval > 0,
        steps > 0,
        now == last_access + interval * steps,
    ensures
        decay_steps(now, last_access, interval) == steps,
{
    assert(interval * steps > 0) by (nonlinear_arith)
        requires
            interval > 0,
            steps > 0,
    ;
    vstd::arithmetic::div_mod::lemma_div_by_multiple(steps as int, interval as int);
    assert(steps * interval == interval * steps) by (nonlinear_arith);
}

/// How importances decay: the nodes that may are looked up; the new importance of
/// each follows from its own, its decay rate and how often it decays, and is
/// stored, one node after the other, up to the first failure.
pub open spec fn decays<F: Fn(RealBits, RealBits, u64) -> RealBits>(
    log: Seq<Exchange>,
    now: i64,
    interval: u64,
    decayed: F,
    r: Read<()>,
) -> bool {
    &&& log.len() > 0
    &&& log[0].statement == statement(GET_DECAYABLE@, seq![SqlV::Integer((now - DECAY_REST_SECS) as i64)])
    &&& log[0].reply is Rows
    &&& match decayable_of(log[0].reply) {
        Err(f) => log.len() == 1 && r == Read::<()>::Err(f),
        Ok(nodes) => {
            &&& log.len() <= nodes.len() + 1
            &&& forall|i: int|
                1 <= i < log.len() ==> decayed_one(#[trigger] log[i], nodes[i - 1], now, interval, decayed)
            &&& forall|i: int| 1 <= i < log.len() - 1 ==> completed((#[trigger] log[i]).reply) is Ok
            &&& match r {
                Ok(_) => log.len() == nodes.len() + 1 && (log.len() > 1 ==> completed(log.last().reply) is Ok),
                Err(f) => log.len() > 1 && completed(log.last().reply) == Read::<()>::Err(f),
            }
        },
    }
}

/// The importance of a node decays.
pub open spec fn decayed_one<F: Fn(RealBits, RealBits, u64) -> RealBits>(
    e: Exchange,
    node: (Seq<char>, RealBits, RealBits, i64),
    now: i64,
    interval: u64,
    decayed: F,
) -> bool {
    &&& e.reply is Changed
    &&& e.statement.sql == UPDATE_IMPORTANCE@
    &&& e.statement.params.len() == 2
    &&& e.statement.params[1] == SqlV::Text(node.0)
    &&& e.statement.params[0] matches SqlV::Real(importance) && call_ensures(
        decayed,
        (node.1, node.2, decay_steps(now, node.3, interval) as u64),
        importance,
    )
}

/// Lets the importance of the nodes decay that were not accessed for a day.
/// `decayed` gives the new importance from the old one, the decay rate and the
/// number of steps.
pub fn run_decay<F: Fn(RealBits, RealBits, u64) -> RealBits>(
    conn: &mut Connection,
    now: i64,
    decay_interval_secs: u64,
    decayed: F,
) -> (r: Result<()>)
    requires
        i64::MIN + DECAY_REST_SECS <= now,
        forall|importance: RealBits, rate: RealBits, steps: u64| #[trigger]
            call_requires(decayed, (importance, rate, steps)),
    ensures
        continues(history(*old(conn)), history(*final(conn))),
        decays(
            since(history(*old(conn)), history(*final(conn))),
            now,
            decay_interval_secs,
            decayed,
            done(r),
        ),
{
    let ghost start = history(*conn);
    assert(since(start, start) =~= Seq::<Exchange>::empty());
    let nodes = get_decayable_nodes(conn, now);
    let ghost first = history(*conn).last();
    proof {
        lemma_since_step(start, start, history(*conn));
    }
    let nodes = nodes?;
    let ghost all = nodes.deep_view();
    let mut i: usize = 0;
    while i < nodes.len()
        invariant
            start == history(*old(conn)),
            all == nodes.deep_view(),
            i <= nodes.len(),
            forall|importance: RealBits, rate: RealBits, steps: u64| #[trigger]
                call_requires(decayed, (importance, rate, steps)),
            continues(start, history(*conn)),
            since(start, history(*conn)).len() == i + 1,
            since(start, history(*conn))[0] == first,
            first.statement == statement(GET_DECAYABLE@, seq![SqlV::Integer((now - DECAY_REST_SECS) as i64)]),
            first.reply is Rows,
            decayable_of(first.reply) == Read::<Seq<(Seq<char>, RealBits, RealBits, i64)>>::Ok(all),
            forall|j: int|
                1 <= j < since(start, history(*conn)).len() ==> decayed_one(
                    #[trigger] since(start, history(*conn))[j],
                    all[j - 1],
                    now,
                    decay_interval_secs,
                    decayed,
                ) && completed(since(start, history(*conn))[j].reply) is Ok,
        decreases nodes.len() - i,
    {
        let ghost before = history(*conn);
        let ghost log = since(start, before);
        let steps: u64 = count_decay_steps(now, nodes[i].3, decay_interval_secs);
        let importance: RealBits = decayed(nodes[i].1, nodes[i].2, steps);
        let stored = update_node_importance(conn, nodes[i].0.as_str(), importance);
        proof {
            lemma_since_step(start, before, history(*conn));
            let step = history(*conn).last();
            assert(all[i as int] == nodes[i as int].deep_view());
            assert(decayed_one(step, all[i as int], now, decay_interval_secs, decayed));
            let longer = since(start, history(*conn));
            assert forall|j: int| 1 <= j < longer.len() implies decayed_one(
                #[trigger] longer[j],
                all[j - 1],
                now,
                decay_interval_secs,
                decayed,
            ) by {
                if j < log.len() {
                    assert(longer[j] == log[j]);
                }
            }
            assert forall|j: int| 1 <= j < longer.len() - 1 implies completed((#[trigger] longer[j]).reply) is Ok by {
                assert(longer[j] == log[j]);
            }
        }
        if let Err(e) = stored {
            return Err(e);
        }
        i = i + 1;
    }
    Ok(())
}

/// Items are dealt with one after the other. Each takes up some exchanges and
/// either does something or not; `r` counts those that do, from `sofar` on. The
/// first failure ends it.
pub open spec fn in_turn<T>(
    log: Seq<Exchange>,
    items: Seq<T>,
    one: spec_fn(Seq<Exchange>, T, Read<bool>) -> bool,
    sofar: nat,
    r: Read<nat>,
) -> bool
    decreases items.len(),
{
    if items.len() == 0 {
        log.len() == 0 && r == Read::<nat>::Ok(sofar)
    } else {
        exists|n: int, did: Read<bool>|
            0 <= n <= log.len() && #[trigger] one(log.take(n), items[0], did) && match did {
                Err(f) => n == log.len() && r == Read::<nat>::Err(f),
                Ok(did) => in_turn(
                    log.skip(n),
                    items.skip(1),
                    one,
                    if did {
                        sofar + 1
                    } else {
                        sofar
                    },
                    r,
                ),
            }
    }
}

/// One item is dealt with, then the rest.
proof fn lemma_in_turn_step<T>(
    step: Seq<Exchange>,
    rest: Seq<Exchange>,
    items: Seq<T>,
    one: spec_fn(Seq<Exchange>, T, Read<bool>) -> bool,
    sofar: nat,
    did: bool,
    r: Read<nat>,
)
    requires
        items.len() > 0,
        one(step, items[0], Ok(did)),
        in_turn(
            rest,
            items.skip(1),
            one,
            if did {
                sofar + 1
            } else {
                sofar
            },
            r,
        ),
    ensures
        in_turn(step + rest, items, one, sofar, r),
{
    let log = step + rest;
    let n = step.len() as int;
    assert(log.take(n) =~= step);
    assert(log.skip(n) =~= rest);
    assert(one(log.take(n), items[0], Ok(did)));
}

/// One item fails.
proof fn lemma_in_turn_fault<T>(
    step: Seq<Exchange>,
    items: Seq<T>,
    one: spec_fn(Seq<Exchange>, T, Read<bool>) -> bool,
    sofar: nat,
    f: FaultV,
)
    requires
        items.len() > 0,
        one(step, items[0], Err(f)),
    ensures
        in_turn(step, items, one, sofar, Err(f)),
{
    assert(step.take(step.len() as int) =~= step);
    assert(one(step.take(step.len() as int), items[0], Err(f)));
}

/// No more items do something than there are.
pub proof fn law_in_turn_is_bounded<T>(
    log: Seq<Exchange>,
    items: Seq<T>,
    one: spec_fn(Seq<Exchange>, T, Read<bool>) -> bool,
    sofar: nat,
    count: nat,
)
    requires
        in_turn(log, items, one, sofar, Ok(count)),
    ensures
        sofar <= count <= sofar + items.len(),
    decreases items.len(),
{
    if items.len() > 0 {
        let (n, did) = choose|n: int, did: Read<bool>|
            0 <= n <= log.len() && #[trigger] one(log.take(n), items[0], did) && match did {
                Err(f) => n == log.len() && Read::<nat>::Ok(count) == Read::<nat>::Err(f),
                Ok(did) => in_turn(
                    log.skip(n),
                    items.skip(1),
                    one,
                    if did {
                        sofar + 1
                    } else {
                        sofar
                    },
                    Ok(count),
                ),
            };
        match did {
            Err(_) => {},
            Ok(did) => {
                law_in_turn_is_bounded(
                    log.skip(n),
                    items.skip(1),
                    one,
                    if did {
                        sofar + 1
                    } else {
                        sofar
                    },
                    count,
                );
            },
        }
    }
}

/// A source is trusted above this score: seven tenths.
pub const TRUSTED: RealBits = 0x3fe6_6666_6666_6666;

/// The query for the support of a node by trusted sources.
pub open spec fn support_query(id: Seq<char>) -> StatementV {
    statement(COUNT_SUPPORTING@, seq![SqlV::Text(id), SqlV::Real(TRUSTED)])
}

/// The query for the contradictions of a node.
pub open spec fn doubt_query(id: Seq<char>) -> StatementV {
    statement(COUNT_CONTRADICTIONS@, seq![SqlV::Text(id)])
}

/// How the trust in one node is adjusted: the support for it and what contradicts
/// it are counted, and where a new score follows from them it is stored.
pub open spec fn adjusts<F: Fn(RealBits, i64, i64) -> Option<RealBits>>(
    adjusted: F,
    log: Seq<Exchange>,
    node: (Seq<char>, RealBits),
    r: Read<bool>,
) -> bool {
    &&& log.len() > 0
    &&& log[0].statement == support_query(node.0)
    &&& log[0].reply is Rows
    &&& match count_of(log[0].reply) {
        Err(f) => log.len() == 1 && r == Read::<bool>::Err(f),
        Ok(supports) => {
            &&& log.len() > 1
            &&& log[1].statement == doubt_query(node.0)
            &&& log[1].reply is Rows
            &&& match count_of(log[1].reply) {
                Err(f) => log.len() == 2 && r == Read::<bool>::Err(f),
                Ok(contradictions) => exists|trust: Option<RealBits>| #[trigger]
                    call_ensures(adjusted, (node.1, supports, contradictions), trust) && match trust {
                        None => log.len() == 2 && r == Read::<bool>::Ok(false),
                        Some(trust) => {
                            &&& log.len() == 3
                            &&& log[2].statement == statement(
                                UPDATE_TRUST@,
                                seq![SqlV::Real(trust), SqlV::Text(node.0)],
                            )
                            &&& log[2].reply is Changed
                            &&& match completed(log[2].reply) {
                                Err(f) => r == Read::<bool>::Err(f),
                                Ok(_) => r == Read::<bool>::Ok(true),
                            }
                        },
                    },
            }
        },
    }
}

/// Adjusts the trust in one node. Returns whether there was anything to adjust.
fn adjust_one<F: Fn(RealBits, i64, i64) -> Option<RealBits>>(
    conn: &mut Connection,
    id: &str,
    trust: RealBits,
    adjusted: &F,
) -> (r: Result<bool>)
    requires
        forall|trust: RealBits, supports: i64, contradictions: i64| #[trigger]
            call_requires(*adjusted, (trust, supports, contradictions)),
    ensures
        continues(history(*old(conn)), history(*final(conn))),
        adjusts(*adjusted, since(history(*old(conn)), history(*final(conn))), (id@, trust), outcome(r)),
{
    let ghost start = history(*conn);
    assert(since(start, start) =~= Seq::<Exchange>::empty());
    let supports = count_supporting_edges(conn, id, TRUSTED);
    let ghost one = history(*conn);
    proof {
        lemma_since_step(start, start, one);
    }
    let supports: i64 = supports?;
    let contradictions = count_contradictions(conn, id);
    let ghost two = history(*conn);
    proof {
        lemma_since_step(start, one, two);
    }
    let contradictions: i64 = contradictions?;
    let new_trust = adjusted(trust, supports, contradictions);
    assert(call_ensures(*adjusted, (trust, supports, contradictions), new_trust));
    match new_trust {
        None => Ok(false),
        Some(new_trust) => {
            let stored = update_node_trust(conn, id, new_trust);
            proof {
                lemma_since_step(start, two, history(*conn));
            }
            match stored {
                Ok(_) => Ok(true),
                Err(e) => Err(e),
            }
        },
    }
}

/// How one contradiction is settled: by an edge that says which node supersedes
/// the other, either way.
pub open spec fn settles(log: Seq<Exchange>, pair: ContradictionV, r: Read<bool>) -> bool {
    &&& log.len() > 0
    &&& log[0].statement == edge_exists_query(pair.node_a, pair.node_b, EdgeKind::Supersedes)
    &&& log[0].reply is Rows
    &&& match any_counted(log[0].reply) {
        Err(f) => log.len() == 1 && r == Read::<bool>::Err(f),
        Ok(true) => resolves(log.skip(1), pair, r),
        Ok(false) => {
            &&& log.len() > 1
            &&& log[1].statement == edge_exists_query(pair.node_b, pair.node_a, EdgeKind::Supersedes)
            &&& log[1].reply is Rows
            &&& match any_counted(log[1].reply) {
                Err(f) => log.len() == 2 && r == Read::<bool>::Err(f),
                Ok(true) => resolves(log.skip(2), pair, r),
                Ok(false) => log.len() == 2 && r == Read::<bool>::Ok(false),
            }
        },
    }
}

/// A contradiction is marked as resolved.
pub open spec fn resolves(log: Seq<Exchange>, pair: ContradictionV, r: Read<bool>) -> bool {
    &&& log.len() == 1
    &&& log[0].statement == statement(RESOLVE_CONTRADICTION@, seq![SqlV::Text(pair.node_a), SqlV::Text(pair.node_b)])
    &&& log[0].reply is Changed
    &&& match completed(log[0].reply) {
        Err(f) => r == Read::<bool>::Err(f),
        Ok(_) => r == Read::<bool>::Ok(true),
    }
}

/// Settles one contradiction, where it can be. Returns whether it was.
fn settle_one(conn: &mut Connection, pair: &ContradictionPair) -> (r: Result<bool>)
    ensures
        continues(history(*old(conn)), history(*final(conn))),
        settles(since(history(*old(conn)), history(*final(conn))), pair.deep_view(), outcome(r)),
{
    let ghost start = history(*conn);
    assert(since(start, start) =~= Seq::<Exchange>::empty());
    let forward = edge_exists(conn, pair.node_a.as_str(), pair.node_b.as_str(), EdgeKind::Supersedes);
    let ghost one = history(*conn);
    proof {
        lemma_since_step(start, start, one);
    }
    let forward = forward?;
    if !forward {
        let backward = edge_exists(conn, pair.node_b.as_str(), pair.node_a.as_str(), EdgeKind::Supersedes);
        proof {
            lemma_since_step(start, one, history(*conn));
        }
        let backward = backward?;
        if !backward {
            return Ok(false);
        }
    }
    let ghost before = history(*conn);
    let ghost log = since(start, before);
    let resolved = resolve_contradiction(conn, pair.node_a.as_str(), pair.node_b.as_str());
    proof {
        lemma_since_step(start, before, history(*conn));
        let last = seq![history(*conn).last()];
        assert(since(start, history(*conn)).skip(log.len() as int) =~= last);
        assert(last[0] == history(*conn).last());
    }
    match resolved {
        Ok(_) => Ok(true),
        Err(e) => Err(e),
    }
}

pub const LIST_TRUST: &'static str = "SELECT id, trust_score FROM nodes";

/// An ID and a trust score, from the two columns of a row.
pub open spec fn trust_row(row: Seq<SqlV>) -> Read<(Seq<char>, RealBits)> {
    match text_column(row, 0, "id"@) {
        Err(f) => Err(f),
        Ok(id) => match real_column(row, 1, "trust_score"@) {
            Err(f) => Err(f),
            Ok(trust) => Ok((id, trust)),
        },
    }
}

/// Reads an ID and a trust score.
fn row_to_trust(row: &Row) -> (r: Result<(NodeId, RealBits)>)
    ensures
        outcome(r) == trust_row(row.deep_view()),
{
    Ok((read_text(row, 0, "id")?, read_real(row, 1, "trust_score")?))
}

/// The IDs and trust scores in those rows that can be read.
pub open spec fn readable(rows: Seq<RowV>) -> Seq<(Seq<char>, RealBits)>
    decreases rows.len(),
{
    if rows.len() == 0 {
        Seq::empty()
    } else {
        let before = readable(rows.drop_last());
        match rows.last() {
            Ok(row) => match trust_row(row) {
                Ok(node) => before.push(node),
                Err(_) => before,
            },
            Err(_) => before,
        }
    }
}

/// Reads the IDs and trust scores in those rows that can be read.
fn read_trusts(rows: &Vec<core::result::Result<Row, rusqlite::Error>>) -> (r: Vec<(NodeId, RealBits)>)
    ensures
        r.deep_view() == readable(row_views(rows@)),
        r.len() <= rows.len(),
{
    let ghost views = row_views(rows@);
    let mut r: Vec<(NodeId, RealBits)> = Vec::new();
    assert(r.deep_view() =~= readable(views.take(0)));
    let mut i: usize = 0;
    while i < rows.len()
        invariant
            i <= rows.len(),
            views == row_views(rows@),
            r.len() <= i,
            r.deep_view() == readable(views.take(i as int)),
        decreases rows.len() - i,
    {
        let ghost had = r.deep_view();
        assert(views.take(i + 1).drop_last() =~= views.take(i as int));
        assert(views.take(i + 1).last() == views[i as int]);
        if let Ok(row) = &rows[i] {
            if let Ok(node) = row_to_trust(row) {
                r.push(node);
                assert(r.deep_view() =~= had.push(node.deep_view()));
            }
        }
        i = i + 1;
    }
    assert(views.take(views.len() as int) =~= views);
    r
}

/// How the graph is consolidated after its nodes were listed: the trust in each
/// is adjusted (`weighing`), the open contradictions are listed, and each is
/// settled where it can be (`settling`).
pub open spec fn consolidated<F: Fn(RealBits, i64, i64) -> Option<RealBits>>(
    log: Seq<Exchange>,
    weighing: Seq<Exchange>,
    adjustments: nat,
    settling: Seq<Exchange>,
    nodes: Seq<(Seq<char>, RealBits)>,
    adjusted: F,
    r: Read<ConsolidationReport>,
) -> bool {
    let adjust = |log: Seq<Exchange>, node: (Seq<char>, RealBits), r: Read<bool>| adjusts(adjusted, log, node, r);
    let settle = |log: Seq<Exchange>, pair: ContradictionV, r: Read<bool>| settles(log, pair, r);
    ||| r matches Err(f) && log == weighing && in_turn(weighing, nodes, adjust, 0, Err(f))
    ||| {
        let at = weighing.len() as int;
        &&& in_turn(weighing, nodes, adjust, 0, Ok(adjustments))
        &&& log.len() > at
        &&& log.take(at) == weighing
        &&& log.skip(at + 1) == settling
        &&& log[at].statement == statement(GET_ALL_UNRESOLVED@, Seq::empty())
        &&& log[at].reply is Rows
        &&& match open_contradictions_of(log[at].reply) {
            Err(f) => settling.len() == 0 && r == Read::<ConsolidationReport>::Err(f),
            Ok(pairs) => match r {
                Err(f) => in_turn(settling, pairs, settle, 0, Err(f)),
                Ok(report) => {
                    &&& report.nodes_updated == nodes.len()
                    &&& report.trust_adjustments == adjustments
                    &&& report.contradictions_found <= pairs.len()
                    &&& in_turn(
                        settling,
                        pairs,
                        settle,
                        0,
                        Ok((pairs.len() - report.contradictions_found) as nat),
                    )
                },
            },
        }
    }
}

/// How the graph is consolidated.
pub open spec fn consolidates<F: Fn(RealBits, i64, i64) -> Option<RealBits>>(
    log: Seq<Exchange>,
    adjusted: F,
    r: Read<ConsolidationReport>,
) -> bool {
    &&& log.len() > 0
    &&& log[0].statement == statement(LIST_TRUST@, Seq::empty())
    &&& log[0].reply is Rows
    &&& match rows_of(log[0].reply) {
        Err(f) => log.len() == 1 && r == Read::<ConsolidationReport>::Err(f),
        Ok(rows) => consolidates_nodes(log.skip(1), readable(rows), adjusted, r),
    }
}

/// How the graph is consolidated after its nodes were listed.
pub open spec fn consolidates_nodes<F: Fn(RealBits, i64, i64) -> Option<RealBits>>(
    log: Seq<Exchange>,
    nodes: Seq<(Seq<char>, RealBits)>,
    adjusted: F,
    r: Read<ConsolidationReport>,
) -> bool {
    exists|weighing: Seq<Exchange>, adjustments: nat, settling: Seq<Exchange>| #[trigger]
        consolidated(log, weighing, adjustments, settling, nodes, adjusted, r)
}

/// Adjusts the trust in every node. Returns in how many there was anything to
/// adjust.
fn weigh<F: Fn(RealBits, i64, i64) -> Option<RealBits>>(
    conn: &mut Connection,
    nodes: &Vec<(NodeId, RealBits)>,
    adjusted: &F,
) -> (r: Result<usize>)
    requires
        forall|trust: RealBits, supports: i64, contradictions: i64| #[trigger]
            call_requires(*adjusted, (trust, supports, contradictions)),
    ensures
        continues(history(*old(conn)), history(*final(conn))),
        in_turn(
            since(history(*old(conn)), history(*final(conn))),
            nodes.deep_view(),
            |log: Seq<Exchange>, node: (Seq<char>, RealBits), r: Read<bool>| adjusts(*adjusted, log, node, r),
            0,
            counted(r),
        ),
{
    let ghost start = history(*conn);
    let ghost all = nodes.deep_view();
    let ghost one = |log: Seq<Exchange>, node: (Seq<char>, RealBits), r: Read<bool>| adjusts(*adjusted, log, node, r);
    assert(since(start, start) =~= Seq::<Exchange>::empty());
    assert(all.skip(0) =~= all);
    assert forall|rest: Seq<Exchange>| since(start, start) + rest == rest by {
        assert(since(start, start) + rest =~= rest);
    }
    let mut count: usize = 0;
    let mut i: usize = 0;
    while i < nodes.len()
        invariant
            start == history(*old(conn)),
            all == nodes.deep_view(),
            one == (|log: Seq<Exchange>, node: (Seq<char>, RealBits), r: Read<bool>| adjusts(*adjusted, log, node, r)),
            i <= nodes.len(),
            count <= i,
            forall|trust: RealBits, supports: i64, contradictions: i64| #[trigger]
                call_requires(*adjusted, (trust, supports, contradictions)),
            continues(start, history(*conn)),
            forall|rest: Seq<Exchange>, res: Read<nat>| #[trigger]
                in_turn(rest, all.skip(i as int), one, count as nat, res) ==> in_turn(
                    since(start, history(*conn)) + rest,
                    all,
                    one,
                    0,
                    res,
                ),
        decreases nodes.len() - i,
    {
        let ghost before = history(*conn);
        let ghost log = since(start, before);
        let ghost items = all.skip(i as int);
        let ghost sofar = count as nat;
        let did = adjust_one(conn, nodes[i].0.as_str(), nodes[i].1, adjusted);
        let ghost step = since(before, history(*conn));
        proof {
            lemma_since_join(start, before, history(*conn));
            assert(items[0] == (nodes[i as int].0@, nodes[i as int].1));
            assert(items.skip(1) =~= all.skip(i + 1));
        }
        match did {
            Err(e) => {
                proof {
                    lemma_in_turn_fault(step, items, one, sofar, e.deep_view());
                }
                return Err(e);
            },
            Ok(did) => {
                if did {
                    count = count + 1;
                }
                proof {
                    let now = since(start, history(*conn));
                    assert forall|rest: Seq<Exchange>, res: Read<nat>| #[trigger]
                        in_turn(rest, all.skip(i + 1), one, count as nat, res) implies in_turn(now + rest, all, one, 0, res) by {
                        lemma_in_turn_step(step, rest, items, one, sofar, did, res);
                        assert(log + (step + rest) =~= now + rest);
                    }
                }
            },
        }
        i = i + 1;
    }
    proof {
        let none = Seq::<Exchange>::empty();
        assert(in_turn(none, all.skip(i as int), one, count as nat, Ok(count as nat)));
        assert(since(start, history(*conn)) + none =~= since(start, history(*conn)));
    }
    Ok(count)
}

/// A count, or why there is none.
pub open spec fn counted(r: Result<usize>) -> Read<nat> {
    match r {
        Ok(n) => Ok(n as nat),
        Err(e) => Err(e.deep_view()),
    }
}

/// Settles the contradictions that can be. Returns how many.
fn settle_all(conn: &mut Connection, pairs: &Vec<ContradictionPair>) -> (r: Result<usize>)
    ensures
        continues(history(*old(conn)), history(*final(conn))),
        in_turn(
            since(history(*old(conn)), history(*final(conn))),
            pairs.deep_view(),
            |log: Seq<Exchange>, pair: ContradictionV, r: Read<bool>| settles(log, pair, r),
            0,
            counted(r),
        ),
        r matches Ok(n) ==> n <= pairs.len(),
{
    let ghost start = history(*conn);
    let ghost all = pairs.deep_view();
    let ghost one = |log: Seq<Exchange>, pair: ContradictionV, r: Read<bool>| settles(log, pair, r);
    assert(since(start, start) =~= Seq::<Exchange>::empty());
    assert(all.skip(0) =~= all);
    assert forall|rest: Seq<Exchange>| since(start, start) + rest == rest by {
        assert(since(start, start) + rest =~= rest);
    }
    let mut count: usize = 0;
    let mut i: usize = 0;
    while i < pairs.len()
        invariant
            start == history(*old(conn)),
            all == pairs.deep_view(),
            one == (|log: Seq<Exchange>, pair: ContradictionV, r: Read<bool>| settles(log, pair, r)),
            i <= pairs.len(),
            count <= i,
            continues(start, history(*conn)),
            forall|rest: Seq<Exchange>, res: Read<nat>| #[trigger]
                in_turn(rest, all.skip(i as int), one, count as nat, res) ==> in_turn(
                    since(start, history(*conn)) + rest,
                    all,
                    one,
                    0,
                    res,
                ),
        decreases pairs.len() - i,
    {
        let ghost before = history(*conn);
        let ghost log = since(start, before);
        let ghost items = all.skip(i as int);
        let ghost sofar = count as nat;
        let did = settle_one(conn, &pairs[i]);
        let ghost step = since(before, history(*conn));
        proof {
            lemma_since_join(start, before, history(*conn));
            assert(items[0] == pairs[i as int].deep_view());
            assert(items.skip(1) =~= all.skip(i + 1));
        }
        match did {
            Err(e) => {
                proof {
                    lemma_in_turn_fault(step, items, one, sofar, e.deep_view());
                }
                return Err(e);
            },
            Ok(did) => {
                if did {
                    count = count + 1;
                }
                proof {
                    let now = since(start, history(*conn));
                    assert forall|rest: Seq<Exchange>, res: Read<nat>| #[trigger]
                        in_turn(rest, all.skip(i + 1), one, count as nat, res) implies in_turn(now + rest, all, one, 0, res) by {
                        lemma_in_turn_step(step, rest, items, one, sofar, did, res);
                        assert(log + (step + rest) =~= now + rest);
                    }
                }
            },
        }
        i = i + 1;
    }
    proof {
        let none = Seq::<Exchange>::empty();
        assert(in_turn(none, all.skip(i as int), one, count as nat, Ok(count as nat)));
        assert(since(start, history(*conn)) + none =~= since(start, history(*conn)));
    }
    Ok(count)
}

/// The parts of a consolidation make up the whole.
proof fn lemma_consolidates<F: Fn(RealBits, i64, i64) -> Option<RealBits>>(
    log: Seq<Exchange>,
    rows: Seq<RowV>,
    weighing: Seq<Exchange>,
    adjustments: nat,
    settling: Seq<Exchange>,
    adjusted: F,
    r: Read<ConsolidationReport>,
)
    requires
        log.len() > 0,
        log[0].statement == statement(LIST_TRUST@, Seq::empty()),
        log[0].reply is Rows,
        rows_of(log[0].reply) == Read::<Seq<RowV>>::Ok(rows),
        consolidated(log.skip(1), weighing, adjustments, settling, readable(rows), adjusted, r),
    ensures
        consolidates(log, adjusted, r),
{
}

/// Adjusts the trust in every node to the evidence and settles the contradictions
/// that can be. `adjusted` gives the new trust in a node from the old one, the
/// support for it and the contradictions, where it changes.
pub fn consolidate<F: Fn(RealBits, i64, i64) -> Option<RealBits>>(conn: &mut Connection, adjusted: F) -> (r: Result<
    ConsolidationReport,
>)
    requires
        forall|trust: RealBits, supports: i64, contradictions: i64| #[trigger]
            call_requires(adjusted, (trust, supports, contradictions)),
    ensures
        continues(history(*old(conn)), history(*final(conn))),
        consolidates(since(history(*old(conn)), history(*final(conn))), adjusted, reported(r)),
{
    let ghost start = history(*conn);
    let ghost none = Seq::<Exchange>::empty();
    assert(since(start, start) =~= none);
    let rows = query(conn, LIST_TRUST, no_params());
    let ghost one = history(*conn);
    proof {
        lemma_since_step(start, start, one);
    }
    let rows = rows?;
    let nodes = read_trusts(&rows);
    let ghost found = row_views(rows@);
    let weighed = weigh(conn, &nodes, &adjusted);
    let ghost two = history(*conn);
    let ghost weighing = since(one, two);
    proof {
        lemma_since_join(start, one, two);
        assert(since(start, two).skip(1) =~= weighing);
        assert(since(start, two)[0] == one.last());
    }
    let adjustments: usize = match weighed {
        Ok(n) => n,
        Err(e) => {
            proof {
                lemma_consolidates(since(start, two), found, weighing, 0, none, adjusted, Err(e.deep_view()));
            }
            return Err(e);
        },
    };
    let unresolved = get_all_unresolved_contradictions(conn);
    let ghost three = history(*conn);
    let ghost at = weighing.len() as int;
    proof {
        lemma_since_step(start, two, three);
        let log = since(start, three).skip(1);
        assert(log =~= weighing.push(three.last()));
        assert(log.take(at) =~= weighing);
        assert(log.skip(at + 1) =~= none);
    }
    let unresolved = match unresolved {
        Ok(pairs) => pairs,
        Err(e) => {
            proof {
                lemma_consolidates(
                    since(start, three),
                    found,
                    weighing,
                    adjustments as nat,
                    none,
                    adjusted,
                    Err(e.deep_view()),
                );
            }
            return Err(e);
        },
    };
    let settled = settle_all(conn, &unresolved);
    let ghost settling = since(three, history(*conn));
    proof {
        lemma_since_join(start, three, history(*conn));
        let log = since(start, history(*conn)).skip(1);
        assert(log =~= weighing.push(three.last()) + settling);
        assert(log.take(at) =~= weighing);
        assert(log.skip(at + 1) =~= settling);
        assert(log[at] == three.last());
        assert(since(start, history(*conn))[0] == one.last());
    }
    let r = match settled {
        Ok(resolved) => Ok(
            ConsolidationReport {
                nodes_updated: nodes.len(),
                contradictions_found: unresolved.len() - resolved,
                trust_adjustments: adjustments,
            },
        ),
        Err(e) => Err(e),
    };
    proof {
        lemma_consolidates(
            since(start, history(*conn)),
            found,
            weighing,
            adjustments as nat,
            settling,
            adjusted,
            reported(r),
        );
    }
    r
}

/// A report, or why there is none.
pub open spec fn reported(r: Result<ConsolidationReport>) -> Read<ConsolidationReport> {
    match r {
        Ok(report) => Ok(report),
        Err(e) => Err(e.deep_view()),
    }
}

/// A contradiction is settled if and only if one of its nodes supersedes the
/// other.
pub proof fn law_supersession_settles(log: Seq<Exchange>, pair: ContradictionV, settled: bool)
    requires
        settles(log, pair, Ok(settled)),
    ensures
        settled <==> any_counted(log[0].reply) == Read::<bool>::Ok(true) || any_counted(log[1].reply) == Read::<
            bool,
        >::Ok(true) && log[1].statement == edge_exists_query(pair.node_b, pair.node_a, EdgeKind::Supersedes),
{
    if any_counted(log[0].reply) == Read::<bool>::Ok(true) {
        assert(log.skip(1).len() == 1);
    }
}

/// A report never tells of more adjustments than nodes.
pub proof fn law_report_is_bounded<F: Fn(RealBits, i64, i64) -> Option<RealBits>>(
    log: Seq<Exchange>,
    adjusted: F,
    report: ConsolidationReport,
)
    requires
        consolidates(log, adjusted, Ok(report)),
    ensures
        report.trust_adjustments <= report.nodes_updated,
{
    let nodes = readable(rows_of(log[0].reply)->Ok_0);
    let (weighing, adjustments, settling) = choose|
        weighing: Seq<Exchange>,
        adjustments: nat,
        settling: Seq<Exchange>,
    | #[trigger] consolidated(log.skip(1), weighing, adjustments, settling, nodes, adjusted, Ok(report));
    law_in_turn_is_bounded(
        weighing,
        nodes,
        |log: Seq<Exchange>, node: (Seq<char>, RealBits), r: Read<bool>| adjusts(adjusted, log, node, r),
        0,
        adjustments,
    );
}

}
