//! What linking is for: which nodes it ties, by which edges, and what it asks.

use vstd::prelude::*;

use crate::db::queries::{node_of, INSERT_EDGE};
use crate::db::rows::{node_row, Read};
use crate::db::{Exchange, ReplyV, SqlV};
use crate::linking::{
    advances, affirmative, confirmed, considers, linkable, negates, negation_between, negation_with, recording, records,
    relates, replied, suspects, CandidateV, LinkActionV, LinkSeeds, NEGATIONS, SuspicionV,
};
use crate::store::graph::{found_in, lemma_considered_in_parts, lemma_queries_leave, untroubled};
use crate::store::{counts_to, lemma_runs_none, lemma_runs_one, lemma_runs_split, lemma_runs_two, linked, runs, StoreV};
use crate::text::{lowercase, occurs, stands_at, trimmed, uppercase};
use crate::types::{ContradictionV, MessageV, NodeV, RealBits, Role};

verus! {

/// A phrase stands somewhere in a text.
pub open spec fn has_phrase(text: Seq<char>, phrase: Seq<char>) -> bool {
    exists|at: int|
        0 <= at <= text.len() - phrase.len() && #[trigger] text.subrange(at, at + phrase.len()) == phrase
}

/// A text in small letters denies something, or says that something is over.
pub open spec fn denies(text: Seq<char>) -> bool {
    ||| has_phrase(text, "not "@)
    ||| has_phrase(text, "no longer"@)
    ||| has_phrase(text, "incorrect"@)
    ||| has_phrase(text, "false"@)
    ||| has_phrase(text, "wrong"@)
    ||| has_phrase(text, "deprecated"@)
    ||| has_phrase(text, "outdated"@)
    ||| has_phrase(text, "replaced by"@)
    ||| has_phrase(text, "superseded"@)
    ||| has_phrase(text, "doesn't"@)
    ||| has_phrase(text, "isn't"@)
    ||| has_phrase(text, "wasn't"@)
    ||| has_phrase(text, "never"@)
    ||| has_phrase(text, "cannot"@)
    ||| has_phrase(text, "can't"@)
    ||| has_phrase(text, "won't"@)
}

/// The bodies of two nodes, the one behind the other with a space between them, in
/// small letters. A node without a body adds nothing.
pub open spec fn both_bodies(a: NodeV, b: NodeV) -> Seq<char> {
    lowercase(
        (match a.body {
            Some(body) => body,
            None => Seq::empty(),
        }) + seq![' '] + (match b.body {
            Some(body) => body,
            None => Seq::empty(),
        }),
    )
}

/// A phrase is found in a text as it stands there.
proof fn lemma_phrase(text: Seq<char>, phrase: Seq<char>)
    ensures
        occurs(text, phrase) == has_phrase(text, phrase),
{
    if occurs(text, phrase) {
        let at = choose|at: int| stands_at(text, phrase, at);
        assert(text.subrange(at, at + phrase.len()) == phrase);
    }
    if has_phrase(text, phrase) {
        let at = choose|at: int|
            0 <= at <= text.len() - phrase.len() && #[trigger] text.subrange(at, at + phrase.len()) == phrase;
        assert(stands_at(text, phrase, at));
    }
}

/// A text is taken to negate something if and only if one of sixteen phrases stands
/// in it.
pub proof fn law_text_negates_by_its_phrases(text: Seq<char>)
    ensures
        negates(text) <==> denies(text),
{
    let phrases = NEGATIONS@;
    assert(phrases.len() == 16);
    assert forall|i: int| 0 <= i < 16 implies occurs(text, #[trigger] phrases[i]@) == has_phrase(text, phrases[i]@) by {
        lemma_phrase(text, phrases[i]@);
    }
    assert(phrases[0]@ == "not "@);
    assert(phrases[1]@ == "no longer"@);
    assert(phrases[2]@ == "incorrect"@);
    assert(phrases[3]@ == "false"@);
    assert(phrases[4]@ == "wrong"@);
    assert(phrases[5]@ == "deprecated"@);
    assert(phrases[6]@ == "outdated"@);
    assert(phrases[7]@ == "replaced by"@);
    assert(phrases[8]@ == "superseded"@);
    assert(phrases[9]@ == "doesn't"@);
    assert(phrases[10]@ == "isn't"@);
    assert(phrases[11]@ == "wasn't"@);
    assert(phrases[12]@ == "never"@);
    assert(phrases[13]@ == "cannot"@);
    assert(phrases[14]@ == "can't"@);
    assert(phrases[15]@ == "won't"@);
}

/// Two nodes negate something between them if and only if their bodies together hold
/// a phrase that does. A node that is not found, or cannot be read, negates nothing.
pub proof fn law_bodies_of_both_nodes_count(a: NodeV, b: NodeV, found: Read<Option<NodeV>>)
    ensures
        negation_between(a, b) <==> denies(both_bodies(a, b)),
        negation_with(a, found) <==> found is Ok && found->Ok_0 is Some && denies(both_bodies(a, found->Ok_0->0)),
{
    reveal_strlit("");
    reveal_strlit(" ");
    assert(""@ =~= Seq::<char>::empty());
    assert(" "@ =~= seq![' ']);
    law_text_negates_by_its_phrases(both_bodies(a, b));
    if found is Ok && found->Ok_0 is Some {
        law_text_negates_by_its_phrases(both_bodies(a, found->Ok_0->0));
    }
}

/// Without a model, a close candidate is a contradiction if and only if the bodies
/// of the two nodes hold a phrase that negates, and otherwise nothing comes of it.
pub proof fn law_phrases_in_either_body_decide(
    log: Seq<Exchange>,
    node: NodeV,
    candidate: CandidateV,
    other: NodeV,
    suspicion: SuspicionV,
)
    requires
        suspects(log, node, candidate, false, suspicion),
        candidate.close,
        node_of(log[0].reply) == Read::<Option<NodeV>>::Ok(Some(other)),
    ensures
        log.len() == 1,
        suspicion == if denies(both_bodies(node, other)) {
            SuspicionV::Contradiction
        } else {
            SuspicionV::Clear
        },
{
    law_bodies_of_both_nodes_count(node, other, Ok(Some(other)));
}

/// A phrase that negates in the body of the node that is linked is enough, and so is
/// one in the body of the candidate, where small letters are made of two texts as
/// they are made of each.
pub proof fn law_one_body_is_enough(
    log: Seq<Exchange>,
    node: NodeV,
    candidate: CandidateV,
    other: NodeV,
    a: Seq<char>,
    b: Seq<char>,
    suspicion: SuspicionV,
)
    requires
        suspects(log, node, candidate, false, suspicion),
        candidate.close,
        node_of(log[0].reply) == Read::<Option<NodeV>>::Ok(Some(other)),
        node.body == Some(a),
        other.body == Some(b),
        lowercase(a + seq![' '] + b) == lowercase(a) + seq![' '] + lowercase(b),
    ensures
        denies(lowercase(a)) || denies(lowercase(b)) ==> suspicion == SuspicionV::Contradiction,
{
    law_phrases_in_either_body_decide(log, node, candidate, other, suspicion);
    let whole = lowercase(a) + seq![' '] + lowercase(b);
    assert forall|phrase: Seq<char>| has_phrase(lowercase(a), phrase) || has_phrase(lowercase(b), phrase) implies
        #[trigger] has_phrase(whole, phrase) by {
        if has_phrase(lowercase(a), phrase) {
            let text = lowercase(a);
            let at = choose|at: int|
                0 <= at <= text.len() - phrase.len() && #[trigger] text.subrange(at, at + phrase.len()) == phrase;
            assert(whole.subrange(at, at + phrase.len()) =~= text.subrange(at, at + phrase.len()));
        } else {
            let text = lowercase(b);
            let at = choose|at: int|
                0 <= at <= text.len() - phrase.len() && #[trigger] text.subrange(at, at + phrase.len()) == phrase;
            let shift = lowercase(a).len() + 1;
            assert(whole.subrange(shift + at, shift + at + phrase.len()) =~= text.subrange(at, at + phrase.len()));
        }
    }
}

/// A candidate that is not close, or that is not found, is never suspected, and of
/// one that is not close not even the node is looked up.
pub proof fn law_only_close_candidates_are_suspected(
    log: Seq<Exchange>,
    node: NodeV,
    candidate: CandidateV,
    has_model: bool,
    suspicion: SuspicionV,
)
    requires
        suspects(log, node, candidate, has_model, suspicion),
    ensures
        !candidate.close ==> log.len() == 0 && suspicion == SuspicionV::Clear,
        candidate.close && !(node_of(log[0].reply) matches Ok(Some(_))) ==> suspicion == SuspicionV::Clear,
        forall|i: int|
            0 <= i < log.len() ==> (#[trigger] log[i]).reply is Rows && log[i].statement.params == seq![
                SqlV::Text(candidate.id),
            ],
{
}

/// With a model, a close candidate is asked about if and only if the bodies of the
/// two nodes hold a phrase that negates. The question names what the node states
/// first and what the candidate states second: the body of each, or its title where
/// it has no body.
pub proof fn law_model_is_asked_about_both_statements(
    log: Seq<Exchange>,
    node: NodeV,
    candidate: CandidateV,
    other: NodeV,
    suspicion: SuspicionV,
)
    requires
        suspects(log, node, candidate, true, suspicion),
        candidate.close,
        node_of(log[0].reply) == Read::<Option<NodeV>>::Ok(Some(other)),
        log.len() > 1 ==> node_of(log[1].reply) == Read::<Option<NodeV>>::Ok(Some(other)),
    ensures
        suspicion == if denies(both_bodies(node, other)) {
            SuspicionV::Ask(
                MessageV {
                    role: Role::User,
                    content:
                        "Do the following two statements contradict each other? Answer only YES or NO.\n\nStatement A: "@
                        + (if node.body is Some {
                        node.body->0
                    } else {
                        node.title
                    }) + "\nStatement B: "@ + (if other.body is Some {
                        other.body->0
                    } else {
                        other.title
                    }),
                },
            )
        } else {
            SuspicionV::Clear
        },
{
    law_bodies_of_both_nodes_count(node, other, Ok(Some(other)));
}

/// Where a model is to be asked about a candidate that a phrase was found for, but the
/// candidate cannot be read any more, it counts as a contradiction, and where it is gone
/// nothing comes of it.
pub proof fn law_candidate_that_cannot_be_read_stays_suspected(
    log: Seq<Exchange>,
    node: NodeV,
    candidate: CandidateV,
    other: NodeV,
    suspicion: SuspicionV,
)
    requires
        suspects(log, node, candidate, true, suspicion),
        candidate.close,
        node_of(log[0].reply) == Read::<Option<NodeV>>::Ok(Some(other)),
        denies(both_bodies(node, other)),
    ensures
        log.len() == 2,
        node_of(log[1].reply) is Err ==> suspicion == SuspicionV::Contradiction,
        node_of(log[1].reply) == Read::<Option<NodeV>>::Ok(None) ==> suspicion == SuspicionV::Clear,
{
    law_bodies_of_both_nodes_count(node, other, Ok(Some(other)));
}

/// A reply confirms a contradiction if and only if its first letters, in capitals and
/// without the white space around it, are those of the word yes.
pub proof fn law_reply_confirms_by_its_first_word(reply: Seq<char>)
    ensures
        confirmed(reply) <==> ({
            let answer = uppercase(trimmed(reply));
            answer.len() >= 3 && answer[0] == 'Y' && answer[1] == 'E' && answer[2] == 'S'
        }),
        affirmative(reply) <==> reply.len() >= 3 && reply[0] == 'Y' && reply[1] == 'E' && reply[2] == 'S',
{
    reveal_strlit("YES");
    let answer = uppercase(trimmed(reply));
    if answer.len() >= 3 && answer[0] == 'Y' && answer[1] == 'E' && answer[2] == 'S' {
        assert(answer.subrange(0, 3) =~= "YES"@);
    }
    if confirmed(reply) {
        assert(answer.subrange(0, 3)[0] == answer[0]);
        assert(answer.subrange(0, 3)[1] == answer[1]);
        assert(answer.subrange(0, 3)[2] == answer[2]);
    }
    if reply.len() >= 3 && reply[0] == 'Y' && reply[1] == 'E' && reply[2] == 'S' {
        assert(reply.subrange(0, 3) =~= "YES"@);
    }
    if affirmative(reply) {
        assert(reply.subrange(0, 3)[0] == reply[0]);
        assert(reply.subrange(0, 3)[1] == reply[1]);
        assert(reply.subrange(0, 3)[2] == reply[2]);
    }
}

/// A node is linked if and only if it is there and has an embedding.
pub proof fn law_nodes_with_an_embedding_are_linked(found: Read<Option<NodeV>>)
    ensures
        found matches Err(f) ==> linkable(found) == Read::<Option<NodeV>>::Err(f),
        found matches Ok(None) ==> linkable(found) == Read::<Option<NodeV>>::Ok(None),
        found matches Ok(Some(node)) ==> linkable(found) == Read::<Option<NodeV>>::Ok(
            if node.embedding is Some {
                Some(node)
            } else {
                None
            },
        ),
{
}

/// A candidate that is similar enough is related to the node by one edge, which leads
/// from the node to the candidate and weighs as much as they are similar. Where such
/// an edge is there, or the candidate is not similar enough, nothing is stored.
pub proof fn law_related_candidate_gets_one_edge(
    before: StoreV,
    log: Seq<Exchange>,
    after: StoreV,
    node_id: Seq<char>,
    candidate: CandidateV,
    edge_id: Seq<char>,
    now: i64,
)
    requires
        relates(log, node_id, candidate, edge_id, now, Ok(())),
        untroubled(log),
        runs(before, log, after),
    ensures
        ({
            let there = linked(before, SqlV::Text(node_id), SqlV::Text(candidate.id), SqlV::Text("relates_to"@));
            after == StoreV {
                edges: if candidate.related && !there {
                    before.edges.insert(
                        seq![
                            SqlV::Text(edge_id),
                            SqlV::Text(node_id),
                            SqlV::Text(candidate.id),
                            SqlV::Text("relates_to"@),
                            SqlV::Real(candidate.similarity),
                            SqlV::Integer(now),
                            SqlV::Null,
                        ],
                    )
                } else {
                    before.edges
                },
                ..before
            }
        }),
{
    if candidate.related {
        let there = linked(before, SqlV::Text(node_id), SqlV::Text(candidate.id), SqlV::Text("relates_to"@));
        let one = lemma_runs_split(before, log, after, 1);
        lemma_runs_one(before, log.take(1), one);
        assert(log.take(1)[0] == log[0]);
        let n = choose|n: i64| #[trigger] counts_to(log[0].reply, n) && (n > 0 <==> there);
        let rest = log.skip(1);
        if n > 0 {
            lemma_runs_none(one, rest, after);
        } else {
            lemma_runs_one(one, rest, after);
            assert(rest[0] == log[1]);
        }
    } else {
        lemma_runs_none(before, log, after);
    }
}

/// A contradiction is recorded by one edge, which leads from the node to the
/// candidate, and by an open pair of the two, first the node, that says when. Where
/// the edge is there, nothing is stored.
pub proof fn law_contradiction_gets_an_edge_and_a_pair(
    before: StoreV,
    log: Seq<Exchange>,
    after: StoreV,
    node_id: Seq<char>,
    candidate_id: Seq<char>,
    edge_id: Seq<char>,
    now: i64,
    weight: RealBits,
)
    requires
        records(log, node_id, candidate_id, edge_id, now, weight, Ok(())),
        untroubled(log),
        runs(before, log, after),
    ensures
        ({
            let there = linked(before, SqlV::Text(node_id), SqlV::Text(candidate_id), SqlV::Text("contradicts"@));
            let pair = ContradictionV {
                node_a: node_id,
                node_b: candidate_id,
                detected_at: now,
                resolved: false,
            };
            if there {
                after == before
            } else {
                &&& log.len() == 3
                &&& after == StoreV {
                    edges: before.edges.insert(
                        seq![
                            SqlV::Text(edge_id),
                            SqlV::Text(node_id),
                            SqlV::Text(candidate_id),
                            SqlV::Text("contradicts"@),
                            SqlV::Real(weight),
                            SqlV::Integer(now),
                            SqlV::Null,
                        ],
                    ),
                    contradictions: after.contradictions,
                    ..before
                }
                &&& after.contradictions == if log[2].reply == ReplyV::Changed(Ok(0)) {
                    before.contradictions
                } else {
                    before.contradictions.insert(pair)
                }
            }
        }),
{
    let there = linked(before, SqlV::Text(node_id), SqlV::Text(candidate_id), SqlV::Text("contradicts"@));
    let one = lemma_runs_split(before, log, after, 1);
    lemma_runs_one(before, log.take(1), one);
    assert(log.take(1)[0] == log[0]);
    let n = choose|n: i64| #[trigger] counts_to(log[0].reply, n) && (n > 0 <==> there);
    let rest = log.skip(1);
    if n > 0 {
        lemma_runs_none(one, rest, after);
    } else {
        let statements = recording(node_id, candidate_id, edge_id, now, weight);
        let two = lemma_runs_two(one, rest, after);
        assert(rest[0] == log[1]);
        assert(rest[1] == log[2]);
        assert(rest[0].statement == statements[0]);
        assert(rest[1].statement == statements[1]);
    }
}

/// A model's reply about a candidate is acted on: where it says yes, and where the
/// model failed, a contradiction between the node and the candidate is recorded; where
/// it says anything else, and where no candidate was asked about, nothing is done.
pub proof fn law_reply_is_acted_on(
    before: StoreV,
    log: Seq<Exchange>,
    after: StoreV,
    node_id: Seq<char>,
    awaited: Option<Seq<char>>,
    reply: Option<Seq<char>>,
    edge_id: Seq<char>,
    now: i64,
    weight: RealBits,
)
    requires
        replied(log, node_id, awaited, reply, edge_id, now, weight, Ok(())),
        untroubled(log),
        runs(before, log, after),
    ensures
        ({
            let yes = match reply {
                Some(text) => {
                    let answer = uppercase(trimmed(text));
                    answer.len() >= 3 && answer[0] == 'Y' && answer[1] == 'E' && answer[2] == 'S'
                },
                None => true,
            };
            &&& awaited is None || !yes ==> after == before && log.len() == 0
            &&& awaited is Some && yes ==> linked(
                after,
                SqlV::Text(node_id),
                SqlV::Text(awaited->0),
                SqlV::Text("contradicts"@),
            )
            &&& awaited is Some && yes && log.len() > 1 && log[2].reply != ReplyV::Changed(Ok(0))
                ==> after.contradictions.contains(
                ContradictionV { node_a: node_id, node_b: awaited->0, detected_at: now, resolved: false },
            )
        }),
{
    if reply is Some {
        law_reply_confirms_by_its_first_word(reply->0);
    }
    if awaited is Some && (reply is None || confirmed(reply->0)) {
        law_contradiction_gets_an_edge_and_a_pair(before, log, after, node_id, awaited->0, edge_id, now, weight);
        if log.len() > 1 {
            let row = seq![
                SqlV::Text(edge_id),
                SqlV::Text(node_id),
                SqlV::Text(awaited->0),
                SqlV::Text("contradicts"@),
                SqlV::Real(weight),
                SqlV::Integer(now),
                SqlV::Null,
            ];
            if !linked(before, SqlV::Text(node_id), SqlV::Text(awaited->0), SqlV::Text("contradicts"@)) {
                assert(after.edges.contains(row));
            }
        }
    } else {
        lemma_runs_none(before, log, after);
    }
}

/// Considering a candidate without a model, where nothing fails, leaves the nodes as
/// they are, relates the two where they are similar enough, and ties them by a
/// contradiction where they are close and a phrase in either body negates. Otherwise
/// no contradiction is stored.
pub proof fn law_candidate_is_tied_by_what_the_bodies_say(
    before: StoreV,
    log: Seq<Exchange>,
    after: StoreV,
    node_id: Seq<char>,
    node: NodeV,
    candidate: CandidateV,
    other: NodeV,
    seeds: LinkSeeds,
)
    requires
        considers(log, node_id, node, candidate, false, seeds, Ok(LinkActionV::Next)),
        untroubled(log),
        runs(before, log, after),
        candidate.id != node_id,
        before.nodes.contains_key(candidate.id),
        node_row(before.nodes[candidate.id]) == Read::<NodeV>::Ok(other),
    ensures
        after.nodes == before.nodes,
        candidate.related ==> linked(
            after,
            SqlV::Text(node_id),
            SqlV::Text(candidate.id),
            SqlV::Text("relates_to"@),
        ),
        candidate.close && denies(both_bodies(node, other)) ==> linked(
            after,
            SqlV::Text(node_id),
            SqlV::Text(candidate.id),
            SqlV::Text("contradicts"@),
        ),
        !candidate.close || !denies(both_bodies(node, other)) ==> after.contradictions == before.contradictions
            && forall|row: Seq<SqlV>| #[trigger]
            after.edges.contains(row) && row[3] == SqlV::Text("contradicts"@) ==> before.edges.contains(row),
{
    let r = Read::<LinkActionV>::Ok(LinkActionV::Next);
    let (relating, one, suspecting, suspicion, two, noting) = lemma_considered_in_parts(
        before,
        log,
        after,
        node_id,
        node,
        candidate,
        false,
        seeds,
        r,
    );
    let now = seeds.contradicts.now;
    assert(untroubled(relating)) by {
        assert forall|i: int| 0 <= i < relating.len() implies relating[i] == #[trigger] log[i] by {}
    }
    assert(untroubled(noting)) by {
        assert forall|i: int| 0 <= i < noting.len() implies match (#[trigger] noting[i]).reply {
            ReplyV::Rows(Ok(_)) => true,
            ReplyV::Changed(Ok(n)) => noting[i].statement.sql == INSERT_EDGE@ ==> n > 0,
            _ => false,
        } by {
            assert(noting[i] == log[relating.len() + suspecting.len() + i]);
        }
    }
    law_related_candidate_gets_one_edge(before, relating, one, node_id, candidate, seeds.related_id@, now);
    law_only_close_candidates_are_suspected(suspecting, node, candidate, false, suspicion);
    lemma_queries_leave(one, suspecting, two);
    reveal_strlit("relates_to");
    reveal_strlit("contradicts");
    assert("relates_to"@.len() != "contradicts"@.len());
    let there = linked(before, SqlV::Text(node_id), SqlV::Text(candidate.id), SqlV::Text("relates_to"@));
    let related = seq![
        SqlV::Text(seeds.related_id@),
        SqlV::Text(node_id),
        SqlV::Text(candidate.id),
        SqlV::Text("relates_to"@),
        SqlV::Real(candidate.similarity),
        SqlV::Integer(now),
        SqlV::Null,
    ];
    if candidate.related && !there {
        assert(one.edges.contains(related));
    }
    assert(candidate.related ==> linked(one, SqlV::Text(node_id), SqlV::Text(candidate.id), SqlV::Text("relates_to"@)));
    if candidate.close {
        assert(suspecting[0] == log[relating.len() as int]);
        let first = lemma_runs_split(one, suspecting, two, 1);
        lemma_runs_one(one, suspecting.take(1), first);
        assert(suspecting.take(1)[0] == suspecting[0]);
        assert(node_of(suspecting[0].reply) == found_in(one, candidate.id));
        law_phrases_in_either_body_decide(suspecting, node, candidate, other, suspicion);
    }
    if suspicion == SuspicionV::Contradiction {
        law_contradiction_gets_an_edge_and_a_pair(
            two,
            noting,
            after,
            node_id,
            candidate.id,
            seeds.contradicts.id@,
            now,
            seeds.contradicts.weight,
        );
        let row = seq![
            SqlV::Text(seeds.contradicts.id@),
            SqlV::Text(node_id),
            SqlV::Text(candidate.id),
            SqlV::Text("contradicts"@),
            SqlV::Real(seeds.contradicts.weight),
            SqlV::Integer(now),
            SqlV::Null,
        ];
        if !linked(two, SqlV::Text(node_id), SqlV::Text(candidate.id), SqlV::Text("contradicts"@)) {
            assert(after.edges.contains(row));
        }
        assert(two.edges.subset_of(after.edges));
    } else {
        lemma_runs_none(two, noting, after);
    }
    if candidate.related {
        let edge = choose|edge: Seq<SqlV>| #[trigger]
            one.edges.contains(edge) && edge[1] == SqlV::Text(node_id) && edge[2] == SqlV::Text(candidate.id)
                && edge[3] == SqlV::Text("relates_to"@);
        assert(after.edges.contains(edge));
    }
}

/// Candidates are considered one after the other, each once and in their order, and linking
/// is finished if and only if none is left.
pub proof fn law_candidates_are_considered_in_order(
    log: Seq<Exchange>,
    node_id: Seq<char>,
    node: NodeV,
    candidates: Seq<CandidateV>,
    k: int,
    awaited: Option<Seq<char>>,
    has_model: bool,
    seeds: LinkSeeds,
    r: Read<LinkActionV>,
    left: Seq<CandidateV>,
    awaiting: Option<Seq<char>>,
)
    requires
        0 <= k <= candidates.len(),
        advances(log, node_id, node, candidates.skip(k), awaited, has_model, seeds, r, left, awaiting),
    ensures
        k == candidates.len() <==> r == Read::<LinkActionV>::Ok(LinkActionV::Finished),
        k == candidates.len() ==> log.len() == 0 && left.len() == 0,
        k < candidates.len() ==> left == candidates.skip(k + 1) && considers(
            log,
            node_id,
            node,
            candidates[k],
            has_model,
            seeds,
            r,
        ),
{
    if k < candidates.len() {
        assert(candidates.skip(k).first() == candidates[k]);
        assert(candidates.skip(k).skip(1) =~= candidates.skip(k + 1));
    }
}

/// A model that was asked about a candidate decides about that candidate: where it says
/// yes, or fails, the node and the candidate contradict each other, and where it says
/// anything else nothing more is stored. Without a question, its reply decides nothing.
pub proof fn law_model_decides_about_the_candidate(
    log: Seq<Exchange>,
    node_id: Seq<char>,
    node: NodeV,
    rest: Seq<CandidateV>,
    awaited: Option<Seq<char>>,
    has_model: bool,
    seeds: LinkSeeds,
    action: LinkActionV,
    left: Seq<CandidateV>,
    awaiting: Option<Seq<char>>,
    before: StoreV,
    log2: Seq<Exchange>,
    after: StoreV,
    reply: Option<Seq<char>>,
    edge_id: Seq<char>,
    now: i64,
    weight: RealBits,
)
    requires
        rest.len() > 0,
        advances(log, node_id, node, rest, awaited, has_model, seeds, Ok(action), left, awaiting),
        replied(log2, node_id, awaiting, reply, edge_id, now, weight, Ok(())),
        untroubled(log2),
        runs(before, log2, after),
    ensures
        !(action is Ask) ==> after == before,
        action is Ask && (reply matches Some(text) && !confirmed(text)) ==> after == before,
        action is Ask && (reply matches Some(text) ==> confirmed(text)) ==> linked(
            after,
            SqlV::Text(node_id),
            SqlV::Text(rest[0].id),
            SqlV::Text("contradicts"@),
        ),
        action is Ask ==> has_model && rest[0].close,
{
    law_reply_is_acted_on(before, log2, after, node_id, awaiting, reply, edge_id, now, weight);
    if reply is Some {
        law_reply_confirms_by_its_first_word(reply->0);
    }
}

}
