//! What happens when the database fails: nothing is passed over. What succeeds had every
//! answer that it asked for, and what fails stops at the first failure and tells it.

use vstd::prelude::*;

use crate::compaction::{fact_node, finishes, stores, storing, ExtractedV};
use crate::cortex::{identifies, tallies};
use crate::db::queries::{
    bulk_delete_statements, decayable_of, delete_statements, deletes_node, deletes_nodes, open_contradictions_of,
    plainly, routes, touch_statements, touches,
};
use crate::db::rows::Read;
use crate::db::tree::{children_of, fresh, walks};
use crate::db::{ran, rows_of, Exchange, ReplyV, StatementV};
use crate::error::FaultV;
use crate::json::{field, text_of, JsonV};
use crate::linking::{
    considered, considers, lookup, recording, records, relates, replied, CandidateV, LinkActionV, LinkSeeds, SuspicionV,
};
use crate::omniseed_provider::invokes;
use crate::session::{counts, creation, lists, resolves, SessionV};
use crate::types::{ConsolidationReport, ContradictionV, EdgeSeed, NodeSeed, NodeV, RealBits, Scores};
use crate::upkeep::{adjusts, consolidated, consolidates, decayed_one, decays, in_turn, readable, settles};

verus! {

/// The database answered, and did not fail.
pub open spec fn went_well(e: Exchange) -> bool {
    match e.reply {
        ReplyV::Opened(_) => true,
        ReplyV::Changed(r) => r is Ok,
        ReplyV::Rows(r) => r is Ok,
        ReplyV::Done(r) => r is Ok,
        ReplyV::Compiled(r) => r is Ok,
    }
}

/// A fault comes of an exchange: it is the error that the database failed with, or the
/// rows of the answer could not be read.
pub open spec fn comes_of(f: FaultV, e: Exchange) -> bool {
    match e.reply {
        ReplyV::Opened(_) => false,
        ReplyV::Changed(r) => r matches Err(x) && f == FaultV::Sqlite(x),
        ReplyV::Rows(r) => r matches Err(x) ==> f == FaultV::Sqlite(x),
        ReplyV::Done(r) => r matches Err(x) && f == FaultV::Sqlite(x),
        ReplyV::Compiled(r) => r matches Err(x) && f == FaultV::Sqlite(x),
    }
}

/// Success means that the database never failed. A failure is that of the last exchange,
/// and is told as it is.
pub open spec fn tells_failures<T>(log: Seq<Exchange>, r: Read<T>) -> bool {
    match r {
        Ok(_) => forall|i: int| 0 <= i < log.len() ==> went_well(#[trigger] log[i]),
        Err(f) => {
            &&& log.len() > 0
            &&& comes_of(f, log.last())
            &&& forall|i: int| 0 <= i < log.len() - 1 ==> went_well(#[trigger] log[i])
        },
    }
}

/// Statements that run in order stop at the first failure.
pub proof fn law_statements_stop_at_a_failure(log: Seq<Exchange>, statements: Seq<StatementV>, r: Read<()>)
    requires
        ran(log, statements, r),
    ensures
        tells_failures(log, r),
        r is Ok ==> log.len() == statements.len(),
        forall|i: int| 0 <= i < log.len() ==> (#[trigger] log[i]).statement == statements[i],
{
    if r is Err {
        let before = log.drop_last();
        assert forall|i: int| 0 <= i < log.len() - 1 implies went_well(#[trigger] log[i]) && log[i].statement
            == statements[i] by {
            assert(before[i] == log[i]);
            assert(statements.take(log.len() - 1)[i] == statements[i]);
        }
    }
}

/// Relating a candidate, recording a contradiction and acting on a reply tell of failures.
pub proof fn law_linking_steps_tell_failures(
    log: Seq<Exchange>,
    node_id: Seq<char>,
    candidate: CandidateV,
    awaited: Option<Seq<char>>,
    reply: Option<Seq<char>>,
    edge_id: Seq<char>,
    now: i64,
    weight: RealBits,
    r: Read<()>,
)
    ensures
        relates(log, node_id, candidate, edge_id, now, r) ==> tells_failures(log, r),
        records(log, node_id, candidate.id, edge_id, now, weight, r) ==> tells_failures(log, r),
        replied(log, node_id, awaited, reply, edge_id, now, weight, r) ==> tells_failures(log, r),
{
    lemma_records_tell(log, node_id, candidate.id, edge_id, now, weight, r);
    if awaited is Some {
        lemma_records_tell(log, node_id, awaited->0, edge_id, now, weight, r);
    }
}

/// Recording a contradiction tells of failures.
proof fn lemma_records_tell(
    log: Seq<Exchange>,
    node_id: Seq<char>,
    candidate_id: Seq<char>,
    edge_id: Seq<char>,
    now: i64,
    weight: RealBits,
    r: Read<()>,
)
    ensures
        records(log, node_id, candidate_id, edge_id, now, weight, r) ==> tells_failures(log, r),
{
    if records(log, node_id, candidate_id, edge_id, now, weight, r) && log.len() > 1 {
        let rest = log.skip(1);
        let statements = recording(node_id, candidate_id, edge_id, now, weight);
        law_statements_stop_at_a_failure(rest, statements, r);
        assert forall|i: int| 1 <= i < log.len() implies #[trigger] log[i] == rest[i - 1] by {}
    }
}

/// Considering a candidate tells of failures, but for those of looking the candidate up: a
/// candidate that cannot be read is not suspected, and one that cannot be read when a
/// model is to be asked stays suspected.
pub proof fn law_considering_tells_failures(
    log: Seq<Exchange>,
    node_id: Seq<char>,
    node: NodeV,
    candidate: CandidateV,
    has_model: bool,
    seeds: LinkSeeds,
    r: Read<LinkActionV>,
)
    requires
        considers(log, node_id, node, candidate, has_model, seeds, r),
    ensures
        r matches Err(f) ==> log.len() > 0 && comes_of(f, log.last()),
        forall|i: int|
            0 <= i < log.len() - 1 && !went_well(#[trigger] log[i]) ==> log[i].statement == lookup(
                candidate.id,
            ),
        r is Ok && log.len() > 0 && !went_well(log.last()) ==> log.last().statement == lookup(
            candidate.id,
        ),
{
    let (relating, suspecting, suspicion, noting) = choose|
        relating: Seq<Exchange>,
        suspecting: Seq<Exchange>,
        suspicion: SuspicionV,
        noting: Seq<Exchange>,
    |
        log == relating + suspecting + noting && #[trigger] considered(
            relating,
            suspecting,
            suspicion,
            noting,
            node_id,
            node,
            candidate,
            has_model,
            seeds,
            r,
        );
    let now = seeds.contradicts.now;
    let plain: Read<()> = match r {
        Ok(_) => Ok(()),
        Err(f) => Err(f),
    };
    law_linking_steps_tell_failures(
        relating,
        node_id,
        candidate,
        None,
        None,
        seeds.related_id@,
        now,
        seeds.contradicts.weight,
        plain,
    );
    law_linking_steps_tell_failures(
        relating,
        node_id,
        candidate,
        None,
        None,
        seeds.related_id@,
        now,
        seeds.contradicts.weight,
        Ok(()),
    );
    lemma_records_tell(noting, node_id, candidate.id, seeds.contradicts.id@, now, seeds.contradicts.weight, plain);
    assert forall|i: int| 0 <= i < relating.len() implies #[trigger] log[i] == relating[i] by {}
    assert forall|i: int| 0 <= i < suspecting.len() implies #[trigger] log[relating.len() + i] == suspecting[i] by {}
    assert forall|i: int| 0 <= i < noting.len() implies #[trigger] log[relating.len() + suspecting.len() + i]
        == noting[i] by {}
    assert forall|i: int|
        0 <= i < log.len() && !went_well(#[trigger] log[i]) && (i < log.len() - 1 || r is Ok) implies log[i].statement
        == lookup(candidate.id) by {
        if i < relating.len() {
            assert(log[i] == relating[i]);
        } else if i < relating.len() + suspecting.len() {
            assert(log[i] == suspecting[i - relating.len()]);
        } else {
            assert(log[i] == noting[i - relating.len() - suspecting.len()]);
        }
    }
    if r is Err {
        if noting.len() > 0 {
            assert(log.last() == noting.last());
        } else {
            assert(log.last() == relating.last());
        }
    }
}

/// Weighing one node and settling one contradiction tell of failures.
pub proof fn law_upkeep_steps_tell_failures<F: Fn(RealBits, i64, i64) -> Option<RealBits>>(
    adjusted: F,
    log: Seq<Exchange>,
    node: (Seq<char>, RealBits),
    pair: ContradictionV,
    r: Read<bool>,
)
    ensures
        adjusts(adjusted, log, node, r) ==> tells_failures(log, r),
        settles(log, pair, r) ==> tells_failures(log, r),
{
    if settles(log, pair, r) {
        assert forall|i: int| 1 <= i < log.len() implies log.skip(1)[i - 1] == #[trigger] log[i] by {}
        assert forall|i: int| 2 <= i < log.len() implies log.skip(2)[i - 2] == #[trigger] log[i] by {}
    }
}

/// What is dealt with in turn tells of failures where each does.
proof fn lemma_in_turn_tells<T>(
    log: Seq<Exchange>,
    items: Seq<T>,
    one: spec_fn(Seq<Exchange>, T, Read<bool>) -> bool,
    sofar: nat,
    r: Read<nat>,
)
    requires
        in_turn(log, items, one, sofar, r),
        forall|step: Seq<Exchange>, item: T, did: Read<bool>| #[trigger]
            one(step, item, did) ==> tells_failures(step, did),
    ensures
        tells_failures(log, r),
    decreases items.len(),
{
    if items.len() > 0 {
        let (n, did) = choose|n: int, did: Read<bool>|
            0 <= n <= log.len() && #[trigger] one(log.take(n), items[0], did) && match did {
                Err(f) => n == log.len() && r == Read::<nat>::Err(f),
                Ok(did) => in_turn(
                    log.skip(n),
                    items.skip(1),
                    one,
                    if did {
                        sofar + 1
                    } else {
                        sofar
                    },
                    r,
                ),
            };
        let first = log.take(n);
        let rest = log.skip(n);
        assert(tells_failures(first, did));
        match did {
            Err(_) => {
                assert(first =~= log);
            },
            Ok(did) => {
                lemma_in_turn_tells(
                    rest,
                    items.skip(1),
                    one,
                    if did {
                        sofar + 1
                    } else {
                        sofar
                    },
                    r,
                );
                assert forall|i: int| 0 <= i < log.len() && (r is Ok || i < log.len() - 1) implies went_well(
                    #[trigger] log[i],
                ) by {
                    if i < n {
                        assert(first[i] == log[i]);
                    } else {
                        assert(rest[i - n] == log[i]);
                    }
                }
                if r is Err {
                    assert(rest.last() == log.last());
                }
            },
        }
    }
}

/// Consolidation tells of failures.
pub proof fn law_consolidation_tells_failures<F: Fn(RealBits, i64, i64) -> Option<RealBits>>(
    log: Seq<Exchange>,
    adjusted: F,
    r: Read<ConsolidationReport>,
)
    requires
        consolidates(log, adjusted, r),
    ensures
        tells_failures(log, r),
{
    if rows_of(log[0].reply) is Ok {
        let rest = log.skip(1);
        let nodes = readable(rows_of(log[0].reply)->Ok_0);
        let (weighing, adjustments, settling) = choose|
            weighing: Seq<Exchange>,
            adjustments: nat,
            settling: Seq<Exchange>,
        | #[trigger] consolidated(rest, weighing, adjustments, settling, nodes, adjusted, r);
        let adjust = |log: Seq<Exchange>, node: (Seq<char>, RealBits), r: Read<bool>| adjusts(adjusted, log, node, r);
        let settle = |log: Seq<Exchange>, pair: ContradictionV, r: Read<bool>| settles(log, pair, r);
        let any = ContradictionV { node_a: Seq::empty(), node_b: Seq::empty(), detected_at: 0, resolved: false };
        assert forall|step: Seq<Exchange>, node: (Seq<char>, RealBits), did: Read<bool>| #[trigger]
            adjust(step, node, did) implies tells_failures(step, did) by {
            law_upkeep_steps_tell_failures(adjusted, step, node, any, did);
        }
        assert forall|step: Seq<Exchange>, pair: ContradictionV, did: Read<bool>| #[trigger]
            settle(step, pair, did) implies tells_failures(step, did) by {
            law_upkeep_steps_tell_failures(adjusted, step, (Seq::empty(), 0), pair, did);
        }
        assert forall|i: int| 1 <= i < log.len() implies rest[i - 1] == #[trigger] log[i] by {}
        let failed = r is Err && rest == weighing && in_turn(weighing, nodes, adjust, 0, Err(r->Err_0));
        if failed {
            lemma_in_turn_tells(weighing, nodes, adjust, 0, Err(r->Err_0));
            assert(log.last() == weighing.last());
        } else {
            let at = weighing.len() as int;
            lemma_in_turn_tells(weighing, nodes, adjust, 0, Ok(adjustments));
            assert forall|i: int| 0 <= i < at implies rest[i] == #[trigger] weighing[i] by {
                assert(rest.take(at)[i] == rest[i]);
            }
            assert forall|i: int| at < i < rest.len() implies settling[i - at - 1] == #[trigger] rest[i] by {
                assert(rest.skip(at + 1)[i - at - 1] == rest[i]);
            }
            match open_contradictions_of(rest[at].reply) {
                Err(_) => {
                    assert(rest.skip(at + 1).len() == 0);
                    assert(log.last() == rest[at]);
                },
                Ok(pairs) => match r {
                    Err(f) => {
                        lemma_in_turn_tells(settling, pairs, settle, 0, Err(f));
                        assert(log.last() == settling.last());
                    },
                    Ok(report) => {
                        lemma_in_turn_tells(
                            settling,
                            pairs,
                            settle,
                            0,
                            Ok((pairs.len() - report.contradictions_found) as nat),
                        );
                    },
                },
            }
            assert forall|i: int| 0 <= i < log.len() && (r is Ok || i < log.len() - 1) implies went_well(
                #[trigger] log[i],
            ) by {
                if i > 0 {
                    assert(log[i] == rest[i - 1]);
                    if i - 1 < at {
                        assert(rest[i - 1] == weighing[i - 1]);
                    } else if i - 1 > at {
                        assert(rest[i - 1] == settling[i - 1 - at - 1]);
                    }
                }
            }
        }
    }
}

/// Decay tells of failures.
pub proof fn law_decay_tells_failures<F: Fn(RealBits, RealBits, u64) -> RealBits>(
    log: Seq<Exchange>,
    now: i64,
    interval: u64,
    decayed: F,
    r: Read<()>,
)
    requires
        decays(log, now, interval, decayed, r),
    ensures
        tells_failures(log, r),
{
    if decayable_of(log[0].reply) is Ok {
        let nodes = decayable_of(log[0].reply)->Ok_0;
        assert forall|i: int| 1 <= i < log.len() && (r is Ok || i < log.len() - 1) implies went_well(
            #[trigger] log[i],
        ) by {
            assert(decayed_one(log[i], nodes[i - 1], now, interval, decayed));
            if i == log.len() - 1 {
                assert(log[i] == log.last());
            }
        }
        if log.len() > 1 {
            assert(decayed_one(log[log.len() - 1], nodes[log.len() - 2], now, interval, decayed));
        }
    }
}

/// Storing an extracted fact and ending a compaction tell of failures.
pub proof fn law_compaction_tells_failures(
    log: Seq<Exchange>,
    session: Seq<char>,
    facts: Seq<ExtractedV>,
    embedding: Seq<u8>,
    seed: NodeSeed,
    edge: EdgeSeed,
    r: Read<Option<Seq<char>>>,
    left: Seq<ExtractedV>,
    more: int,
    before: Seq<Exchange>,
    after: Seq<Exchange>,
    count: nat,
    finished: Read<usize>,
)
    requires
        stores(log, session, facts, embedding, seed, edge, r, left, more),
        finishes(before, after, session, count, finished),
    ensures
        tells_failures(log, r),
        count > 0 ==> (finished is Ok <==> went_well(after.last())),
        finished matches Err(f) ==> comes_of(f, after.last()),
{
    if facts.len() > 0 {
        let node = fact_node(facts.first(), seed.id@, seed.now, seed.scores, embedding);
        let statements = storing(session, node, edge.id@, edge.now, edge.weight);
        let plain: Read<()> = match r {
            Ok(_) => Ok(()),
            Err(f) => Err(f),
        };
        law_statements_stop_at_a_failure(log, statements, plain);
    }
}

/// Giving an agent its identity, counting the graph, finding, listing, counting and routing
/// sessions tell of failures.
pub proof fn law_core_tells_failures(
    log: Seq<Exchange>,
    id: Seq<char>,
    now: i64,
    user: Seq<char>,
    channel: Seq<char>,
    scores: Scores,
    identified: Read<()>,
    tallied: Read<(i64, i64, Map<Seq<char>, i64>)>,
    resolved: Read<SessionV>,
    listed: Read<Seq<SessionV>>,
    counted: Read<(i64, i64)>,
    routed: Read<Option<(Seq<char>, Seq<char>)>>,
)
    ensures
        identifies(log, id, now, identified) ==> tells_failures(log, identified),
        tallies(log, tallied) ==> tells_failures(log, tallied),
        resolves(log, user, channel, id, now, scores, resolved) ==> tells_failures(log, resolved),
        lists(log, user, listed) ==> tells_failures(log, listed),
        counts(log, counted) ==> tells_failures(log, counted),
        routes(log, id, routed) ==> tells_failures(log, routed),
{
    if resolves(log, user, channel, id, now, scores, resolved) {
        let rest = log.skip(2);
        assert forall|i: int| 2 <= i < log.len() implies #[trigger] log[i] == rest[i - 2] by {}
        let statements = creation(id, user, channel, now, scores);
        let plain: Read<()> = match resolved {
            Ok(_) => Ok(()),
            Err(f) => Err(f),
        };
        if ran(rest, statements, plain) {
            law_statements_stop_at_a_failure(rest, statements, plain);
        }
    }
}

/// Recording accesses and deleting nodes tell of failures.
pub proof fn law_changes_tell_failures(
    log: Seq<Exchange>,
    now: i64,
    ids: Seq<Seq<char>>,
    id: Seq<char>,
    touched: Read<()>,
    deleted: Read<bool>,
    gone: Read<usize>,
)
    ensures
        touches(log, now, ids, touched) ==> tells_failures(log, touched),
        deletes_node(log, id, deleted) ==> tells_failures(log, deleted),
        deletes_nodes(log, ids, gone) ==> tells_failures(log, gone),
{
    if touches(log, now, ids, touched) && went_well(log[0]) {
        let rest = log.skip(1);
        law_statements_stop_at_a_failure(rest, touch_statements(now, ids), touched);
        assert forall|i: int| 1 <= i < log.len() implies #[trigger] log[i] == rest[i - 1] by {}
    }
    if deletes_node(log, id, deleted) {
        law_statements_stop_at_a_failure(
            log,
            delete_statements(id),
            plainly(deleted),
        );
    }
    if deletes_nodes(log, ids, gone) {
        law_statements_stop_at_a_failure(
            log,
            bulk_delete_statements(ids),
            plainly(gone),
        );
    }
}

/// The walk over a session tells of failures.
pub proof fn law_walk_tells_failures(
    visited: Seq<Seq<char>>,
    frontier: Seq<Seq<char>>,
    log: Seq<Exchange>,
    r: Read<Seq<Seq<char>>>,
)
    requires
        walks(visited, frontier, log, r),
    ensures
        tells_failures(log, r),
    decreases log.len(),
{
    if frontier.len() > 0 && children_of(log.first().reply) is Ok {
        let found = children_of(log.first().reply)->Ok_0;
        let rest = log.drop_first();
        law_walk_tells_failures(visited + fresh(visited, found), fresh(visited, found), rest, r);
        assert forall|i: int| 1 <= i < log.len() implies #[trigger] log[i] == rest[i - 1] by {}
    }
}

/// An operation on memory tells of failures; one that asks nothing of
/// the database was refused.
pub proof fn law_operation_tells_failures(
    log: Seq<Exchange>,
    company: Seq<char>,
    operation: Seq<char>,
    input: JsonV,
    now: i64,
    stamp: Seq<char>,
    scores: Scores,
    r: Read<JsonV>,
)
    requires
        invokes(log, company, operation, input, now, stamp, scores, r),
    ensures
        log.len() > 0 ==> tells_failures(log, r),
        log.len() == 0 ==> r matches Err(FaultV::Config(_)),
{
    if let Some(id) = text_of(field(input, "id"@)) {
        let statements = delete_statements(id);
        if ran(log, statements, plainly(r)) {
            law_statements_stop_at_a_failure(log, statements, plainly(r));
        }
    }
}

}
