//! Linking: how a node that was stored is tied to the nodes that are like it.
//!
//! A candidate that is similar enough gets a `relates_to` edge. One that is very
//! similar may contradict the node: where neither text negates anything it does
//! not; otherwise a model decides, and where there is none it does.

use rusqlite::Connection;
use vstd::prelude::*;
use vstd::string::*;

use crate::db::params::edge_cells;
use crate::db::queries::{
    any_counted, edge_exists, edge_exists_query, get_node, insert_contradiction, insert_edge, node_of, GET_NODE,
    INSERT_CONTRADICTION, INSERT_EDGE,
};
use crate::db::rows::Read;
use crate::db::{
    completed, continues, history, lemma_ran_step, lemma_since_join, lemma_since_step, queried, ran, since, statement,
    went_through, Exchange, SqlV, StatementV,
};
use crate::error::{done, outcome, Result};
use crate::text::{
    contains, lowercase, occurs, same, stands_at, starts_with, to_lowercase, to_uppercase, trim, trimmed, uppercase,
};
use crate::types::{new_edge, Edge, EdgeKind, EdgeSeed, Message, MessageV, Node, NodeId, NodeV, RealBits, Role};

verus! {

/// A node that is like the one to link.
#[derive(Debug)]
pub struct Candidate {
    pub id: NodeId,
    /// How similar it is.
    pub similarity: RealBits,
    /// It is similar enough to be related.
    pub related: bool,
    /// It is similar enough to be a contradiction.
    pub close: bool,
}

/// What a candidate says.
pub struct CandidateV {
    pub id: Seq<char>,
    pub similarity: RealBits,
    pub related: bool,
    pub close: bool,
}

impl DeepView for Candidate {
    type V = CandidateV;

    open spec fn deep_view(&self) -> CandidateV {
        CandidateV { id: self.id@, similarity: self.similarity, related: self.related, close: self.close }
    }
}

/// What is to be done about a possible contradiction.
#[derive(Debug)]
pub enum Suspicion {
    /// Nothing: there is none.
    Clear,
    /// It is one.
    Contradiction,
    /// Ask a model.
    Ask(Message),
}

/// What a suspicion says.
pub enum SuspicionV {
    Clear,
    Contradiction,
    Ask(MessageV),
}

impl DeepView for Suspicion {
    type V = SuspicionV;

    open spec fn deep_view(&self) -> SuspicionV {
        match *self {
            Suspicion::Clear => SuspicionV::Clear,
            Suspicion::Contradiction => SuspicionV::Contradiction,
            Suspicion::Ask(message) => SuspicionV::Ask(message.deep_view()),
        }
    }
}

/// The lookup of a node.
pub open spec fn lookup(id: Seq<char>) -> StatementV {
    statement(GET_NODE@, seq![SqlV::Text(id)])
}

/// The node to link, where it is there and has an embedding.
pub open spec fn linkable(found: Read<Option<NodeV>>) -> Read<Option<NodeV>> {
    match found {
        Err(f) => Err(f),
        Ok(Some(node)) => if node.embedding is Some {
            Ok(Some(node))
        } else {
            Ok(None)
        },
        Ok(None) => Ok(None),
    }
}

/// Finds the node to link. There is nothing to link where it is gone or has no
/// embedding.
pub fn link_subject(conn: &mut Connection, node_id: &str) -> (r: Result<Option<Node>>)
    ensures
        queried(history(*old(conn)), history(*final(conn)), lookup(node_id@)),
        outcome(r) == linkable(node_of(history(*final(conn)).last().reply)),
{
    match get_node(conn, node_id)? {
        Some(node) => if node.embedding.is_some() {
            Ok(Some(node))
        } else {
            Ok(None)
        },
        None => Ok(None),
    }
}

/// How a candidate is related to a node: by an edge that weighs as much as they
/// are similar, where they are similar enough and there is none yet.
pub open spec fn relates(
    log: Seq<Exchange>,
    node_id: Seq<char>,
    candidate: CandidateV,
    edge_id: Seq<char>,
    now: i64,
    r: Read<()>,
) -> bool {
    if !candidate.related {
        log.len() == 0 && r == Read::<()>::Ok(())
    } else {
        &&& log.len() > 0
        &&& log[0].statement == edge_exists_query(node_id, candidate.id, EdgeKind::RelatesTo)
        &&& log[0].reply is Rows
        &&& match any_counted(log[0].reply) {
            Err(f) => log.len() == 1 && r == Read::<()>::Err(f),
            Ok(true) => log.len() == 1 && r == Read::<()>::Ok(()),
            Ok(false) => {
                &&& log.len() == 2
                &&& log[1].statement == statement(
                    INSERT_EDGE@,
                    edge_cells(
                        new_edge(edge_id, node_id, candidate.id, EdgeKind::RelatesTo, now, candidate.similarity),
                    ),
                )
                &&& log[1].reply is Changed
                &&& r == completed(log[1].reply)
            },
        }
    }
}

/// Relates a candidate to a node.
pub fn relate(conn: &mut Connection, node_id: &str, candidate: &Candidate, edge_id: &str, now: i64) -> (r: Result<()>)
    ensures
        continues(history(*old(conn)), history(*final(conn))),
        relates(
            since(history(*old(conn)), history(*final(conn))),
            node_id@,
            candidate.deep_view(),
            edge_id@,
            now,
            done(r),
        ),
{
    let ghost start = history(*conn);
    assert(since(start, start) =~= Seq::<Exchange>::empty());
    if !candidate.related {
        return Ok(());
    }
    let exists_already = edge_exists(conn, node_id, candidate.id.as_str(), EdgeKind::RelatesTo);
    let ghost one = history(*conn);
    proof {
        lemma_since_step(start, start, one);
    }
    match exists_already {
        Err(e) => Err(e),
        Ok(true) => Ok(()),
        Ok(false) => {
            let seed = EdgeSeed { id: edge_id.to_owned(), now, weight: candidate.similarity };
            let edge = Edge::new(node_id.to_owned(), candidate.id.clone(), EdgeKind::RelatesTo, seed);
            let inserted = insert_edge(conn, &edge);
            proof {
                lemma_since_step(start, one, history(*conn));
            }
            inserted
        },
    }
}

/// Phrases that negate.
pub const NEGATIONS: [&'static str; 16] = [
    "not ",
    "no longer",
    "incorrect",
    "false",
    "wrong",
    "deprecated",
    "outdated",
    "replaced by",
    "superseded",
    "doesn't",
    "isn't",
    "wasn't",
    "never",
    "cannot",
    "can't",
    "won't",
];

/// A text holds a phrase that negates.
pub open spec fn negates(text: Seq<char>) -> bool {
    exists|i: int| 0 <= i < NEGATIONS@.len() && #[trigger] occurs(text, NEGATIONS@[i]@)
}

/// Does a text hold a phrase that negates?
pub fn holds_negation(text: &str) -> (r: bool)
    ensures
        r == negates(text@),
{
    let phrases = NEGATIONS;
    let mut i: usize = 0;
    while i < phrases.len()
        invariant
            i <= phrases.len(),
            phrases@ == NEGATIONS@,
            forall|j: int| 0 <= j < i ==> !#[trigger] occurs(text@, NEGATIONS@[j]@),
        decreases phrases.len() - i,
    {
        if contains(text, phrases[i]) {
            assert(occurs(text@, NEGATIONS@[i as int]@));
            return true;
        }
        i = i + 1;
    }
    false
}

/// The body of a node, or nothing.
pub open spec fn body_text(node: NodeV) -> Seq<char> {
    match node.body {
        Some(body) => body,
        None => ""@,
    }
}

/// The bodies of two nodes, taken together, hold a phrase that negates.
pub open spec fn negation_between(a: NodeV, b: NodeV) -> bool {
    negates(lowercase(body_text(a) + " "@ + body_text(b)))
}

/// Do the bodies of two nodes hold a phrase that negates?
pub fn has_negation(a: &Node, b: &Node) -> (r: bool)
    ensures
        r == negation_between(a.deep_view(), b.deep_view()),
{
    let mut combined = match &a.body {
        Some(body) => body.clone(),
        None => "".to_owned(),
    };
    combined.append(" ");
    match &b.body {
        Some(body) => combined.append(body.as_str()),
        None => combined.append(""),
    }
    let lower = to_lowercase(combined.as_str());
    holds_negation(lower.as_str())
}

/// Whether a node that was looked up and a given one negate something between
/// them. A node that is not found negates nothing.
pub open spec fn negation_with(node: NodeV, found: Read<Option<NodeV>>) -> bool {
    match found {
        Ok(Some(candidate)) => negation_between(node, candidate),
        _ => false,
    }
}

/// Looks a candidate up and tells whether it and a node negate something between
/// them.
pub fn detect_negation(conn: &mut Connection, node: &Node, candidate_id: &str) -> (r: bool)
    ensures
        queried(history(*old(conn)), history(*final(conn)), lookup(candidate_id@)),
        r == negation_with(node.deep_view(), node_of(history(*final(conn)).last().reply)),
{
    match get_node(conn, candidate_id) {
        Ok(Some(candidate)) => has_negation(node, &candidate),
        _ => false,
    }
}

/// What a node states: its body, or its title where it has none.
pub open spec fn statement_of(node: NodeV) -> Seq<char> {
    match node.body {
        Some(body) => body,
        None => node.title,
    }
}

/// The question whether two nodes contradict each other.
pub open spec fn question(a: NodeV, b: NodeV) -> MessageV {
    MessageV {
        role: Role::User,
        content: QUESTION_HEAD@ + statement_of(a) + QUESTION_MIDDLE@ + statement_of(b),
    }
}

pub const QUESTION_HEAD: &'static str =
    "Do the following two statements contradict each other? Answer only YES or NO.\n\nStatement A: ";

pub const QUESTION_MIDDLE: &'static str = "\nStatement B: ";

/// What a node states.
fn statement_text(node: &Node) -> (r: &str)
    ensures
        r@ == statement_of(node.deep_view()),
{
    match &node.body {
        Some(body) => body.as_str(),
        None => node.title.as_str(),
    }
}

/// The question whether two nodes contradict each other.
pub fn adjudication_question(a: &Node, b: &Node) -> (r: Message)
    ensures
        r.deep_view() == question(a.deep_view(), b.deep_view()),
{
    let mut content = QUESTION_HEAD.to_owned();
    content.append(statement_text(a));
    content.append(QUESTION_MIDDLE);
    content.append(statement_text(b));
    Message::user(content)
}

/// An answer says yes where it starts with it.
pub open spec fn affirmative(answer: Seq<char>) -> bool {
    stands_at(answer, "YES"@, 0)
}

/// Does an answer say yes?
pub fn is_affirmative(answer: &str) -> (r: bool)
    ensures
        r == affirmative(answer@),
{
    starts_with(answer, "YES")
}

/// A model's reply confirms a contradiction where it says yes, in whatever case
/// and with whatever space around it.
pub open spec fn confirmed(reply: Seq<char>) -> bool {
    affirmative(uppercase(trimmed(reply)))
}

/// Does a model's reply confirm a contradiction? Where the model failed there is
/// no reply, and the suspicion stands.
pub fn confirms(reply: Option<&str>) -> (r: bool)
    ensures
        r == match reply {
            Some(text) => confirmed(text@),
            None => true,
        },
{
    match reply {
        Some(text) => {
            let upper = to_uppercase(trim(text).as_str());
            is_affirmative(upper.as_str())
        },
        None => true,
    }
}

/// What follows for a candidate and a model that was not asked yet, from what
/// the lookup of the candidate found.
pub open spec fn to_ask(node: NodeV, found: Read<Option<NodeV>>) -> SuspicionV {
    match found {
        Err(_) => SuspicionV::Contradiction,
        Ok(None) => SuspicionV::Clear,
        Ok(Some(candidate)) => SuspicionV::Ask(question(node, candidate)),
    }
}

/// How a candidate comes under suspicion: only where it is close and something is
/// negated. The suspicion is settled where there is no model to ask.
pub open spec fn suspects(
    log: Seq<Exchange>,
    node: NodeV,
    candidate: CandidateV,
    has_model: bool,
    suspicion: SuspicionV,
) -> bool {
    if !candidate.close {
        log.len() == 0 && suspicion == SuspicionV::Clear
    } else {
        &&& log.len() > 0
        &&& log[0].statement == lookup(candidate.id)
        &&& log[0].reply is Rows
        &&& if !negation_with(node, node_of(log[0].reply)) {
            log.len() == 1 && suspicion == SuspicionV::Clear
        } else if !has_model {
            log.len() == 1 && suspicion == SuspicionV::Contradiction
        } else {
            &&& log.len() == 2
            &&& log[1].statement == lookup(candidate.id)
            &&& log[1].reply is Rows
            &&& suspicion == to_ask(node, node_of(log[1].reply))
        }
    }
}

/// Tells whether a candidate is suspected to contradict a node.
pub fn suspect(conn: &mut Connection, node: &Node, candidate: &Candidate, has_model: bool) -> (suspicion: Suspicion)
    ensures
        continues(history(*old(conn)), history(*final(conn))),
        suspects(
            since(history(*old(conn)), history(*final(conn))),
            node.deep_view(),
            candidate.deep_view(),
            has_model,
            suspicion.deep_view(),
        ),
{
    let ghost start = history(*conn);
    assert(since(start, start) =~= Seq::<Exchange>::empty());
    if !candidate.close {
        return Suspicion::Clear;
    }
    let negated = detect_negation(conn, node, candidate.id.as_str());
    let ghost one = history(*conn);
    proof {
        lemma_since_step(start, start, one);
    }
    if !negated {
        return Suspicion::Clear;
    }
    if !has_model {
        return Suspicion::Contradiction;
    }
    let found = get_node(conn, candidate.id.as_str());
    proof {
        lemma_since_step(start, one, history(*conn));
    }
    match found {
        Err(_) => Suspicion::Contradiction,
        Ok(None) => Suspicion::Clear,
        Ok(Some(other)) => Suspicion::Ask(adjudication_question(node, &other)),
    }
}

/// The statements that record a contradiction: the edge, then the pair.
pub open spec fn recording(
    node_id: Seq<char>,
    candidate_id: Seq<char>,
    edge_id: Seq<char>,
    now: i64,
    weight: RealBits,
) -> Seq<StatementV> {
    seq![
        statement(
            INSERT_EDGE@,
            edge_cells(new_edge(edge_id, node_id, candidate_id, EdgeKind::Contradicts, now, weight)),
        ),
        statement(
            INSERT_CONTRADICTION@,
            seq![SqlV::Text(node_id), SqlV::Text(candidate_id), SqlV::Integer(now)],
        ),
    ]
}

/// How a contradiction is recorded: where there is no edge for it yet.
pub open spec fn records(
    log: Seq<Exchange>,
    node_id: Seq<char>,
    candidate_id: Seq<char>,
    edge_id: Seq<char>,
    now: i64,
    weight: RealBits,
    r: Read<()>,
) -> bool {
    &&& log.len() > 0
    &&& log[0].statement == edge_exists_query(node_id, candidate_id, EdgeKind::Contradicts)
    &&& log[0].reply is Rows
    &&& match any_counted(log[0].reply) {
        Err(f) => log.len() == 1 && r == Read::<()>::Err(f),
        Ok(true) => log.len() == 1 && r == Read::<()>::Ok(()),
        Ok(false) => ran(log.skip(1), recording(node_id, candidate_id, edge_id, now, weight), r),
    }
}

/// Records that a candidate contradicts a node.
pub fn record_contradiction(conn: &mut Connection, node_id: &str, candidate_id: &str, seed: EdgeSeed) -> (r: Result<()>)
    ensures
        continues(history(*old(conn)), history(*final(conn))),
        records(
            since(history(*old(conn)), history(*final(conn))),
            node_id@,
            candidate_id@,
            seed.id@,
            seed.now,
            seed.weight,
            done(r),
        ),
{
    let ghost start = history(*conn);
    assert(since(start, start) =~= Seq::<Exchange>::empty());
    let now: i64 = seed.now;
    let ghost statements = recording(node_id@, candidate_id@, seed.id@, now, seed.weight);
    let exists_already = edge_exists(conn, node_id, candidate_id, EdgeKind::Contradicts);
    let ghost one = history(*conn);
    proof {
        lemma_since_step(start, start, one);
    }
    let exists_already = exists_already?;
    if exists_already {
        return Ok(());
    }
    let ghost none = since(start, one).skip(1);
    assert(none =~= Seq::<Exchange>::empty());
    assert(went_through(none, statements.take(0)));
    let edge = Edge::new(node_id.to_owned(), candidate_id.to_owned(), EdgeKind::Contradicts, seed);
    let linked = insert_edge(conn, &edge);
    let ghost two = history(*conn);
    proof {
        lemma_since_step(start, one, two);
        lemma_ran_step(none, statements, two.last());
        assert(since(start, two).skip(1) =~= none.push(two.last()));
    }
    if let Err(e) = linked {
        return Err(e);
    }
    let paired = insert_contradiction(conn, node_id, candidate_id, now);
    proof {
        lemma_since_step(start, two, history(*conn));
        lemma_ran_step(none.push(two.last()), statements, history(*conn).last());
        assert(since(start, history(*conn)).skip(1) =~= none.push(two.last()).push(history(*conn).last()));
        assert(statements.take(2) =~= statements);
    }
    paired
}

/// What new edges take from outside the graph.
#[derive(Debug)]
pub struct LinkSeeds {
    /// A fresh ID for an edge between related nodes.
    pub related_id: NodeId,
    /// The seed of an edge between contradicting nodes.
    pub contradicts: EdgeSeed,
}

/// What comes next when a node is linked.
#[derive(Debug)]
pub enum LinkAction {
    /// Nothing: every candidate was considered.
    Finished,
    /// Another candidate.
    Next,
    /// A model is to be asked, and its reply handed back.
    Ask(Message),
}

/// What an action says.
pub enum LinkActionV {
    Finished,
    Next,
    Ask(MessageV),
}

impl DeepView for LinkAction {
    type V = LinkActionV;

    open spec fn deep_view(&self) -> LinkActionV {
        match *self {
            LinkAction::Finished => LinkActionV::Finished,
            LinkAction::Next => LinkActionV::Next,
            LinkAction::Ask(message) => LinkActionV::Ask(message.deep_view()),
        }
    }
}

/// How a candidate is considered, in up to three parts: it is related, it comes
/// under suspicion, and a settled suspicion is recorded. The first failure ends
/// it. A node is no candidate for itself.
pub open spec fn considered(
    relating: Seq<Exchange>,
    suspecting: Seq<Exchange>,
    suspicion: SuspicionV,
    noting: Seq<Exchange>,
    node_id: Seq<char>,
    node: NodeV,
    candidate: CandidateV,
    has_model: bool,
    seeds: LinkSeeds,
    r: Read<LinkActionV>,
) -> bool {
    if candidate.id == node_id {
        relating.len() == 0 && suspecting.len() == 0 && noting.len() == 0 && r == Read::<LinkActionV>::Ok(
            LinkActionV::Next,
        )
    } else {
        let now = seeds.contradicts.now;
        ||| {
            &&& r matches Err(f) && relates(relating, node_id, candidate, seeds.related_id@, now, Err(f))
            &&& suspecting.len() == 0 && noting.len() == 0
        }
        ||| {
            &&& relates(relating, node_id, candidate, seeds.related_id@, now, Ok(()))
            &&& suspects(suspecting, node, candidate, has_model, suspicion)
            &&& match suspicion {
                SuspicionV::Clear => noting.len() == 0 && r == Read::<LinkActionV>::Ok(LinkActionV::Next),
                SuspicionV::Ask(message) => {
                    noting.len() == 0 && r == Read::<LinkActionV>::Ok(LinkActionV::Ask(message))
                },
                SuspicionV::Contradiction => {
                    &&& records(
                        noting,
                        node_id,
                        candidate.id,
                        seeds.contradicts.id@,
                        now,
                        seeds.contradicts.weight,
                        match r {
                            Ok(_) => Ok(()),
                            Err(f) => Err(f),
                        },
                    )
                    &&& r is Ok ==> r == Read::<LinkActionV>::Ok(LinkActionV::Next)
                },
            }
        }
    }
}

/// How a candidate is considered, as a whole.
pub open spec fn considers(
    log: Seq<Exchange>,
    node_id: Seq<char>,
    node: NodeV,
    candidate: CandidateV,
    has_model: bool,
    seeds: LinkSeeds,
    r: Read<LinkActionV>,
) -> bool {
    exists|
        relating: Seq<Exchange>,
        suspecting: Seq<Exchange>,
        suspicion: SuspicionV,
        noting: Seq<Exchange>,
    |
        log == relating + suspecting + noting && #[trigger] considered(
            relating,
            suspecting,
            suspicion,
            noting,
            node_id,
            node,
            candidate,
            has_model,
            seeds,
            r,
        )
}

/// How linking goes on: the next candidate is considered, where there is one. `left` are
/// the candidates that are left, and `awaiting` is the one that a model is to be asked
/// about.
pub open spec fn advances(
    log: Seq<Exchange>,
    node_id: Seq<char>,
    node: NodeV,
    rest: Seq<CandidateV>,
    awaited: Option<Seq<char>>,
    has_model: bool,
    seeds: LinkSeeds,
    r: Read<LinkActionV>,
    left: Seq<CandidateV>,
    awaiting: Option<Seq<char>>,
) -> bool {
    if rest.len() == 0 {
        log.len() == 0 && left.len() == 0 && awaiting == awaited && r == Read::<LinkActionV>::Ok(LinkActionV::Finished)
    } else {
        let candidate = rest.first();
        &&& left == rest.skip(1)
        &&& awaiting == if r matches Ok(LinkActionV::Ask(_)) {
            Some(candidate.id)
        } else {
            None
        }
        &&& considers(log, node_id, node, candidate, has_model, seeds, r)
    }
}

/// What follows from a model's reply about a candidate: a contradiction is recorded,
/// unless the reply denies it or none was awaited. A model that failed denies
/// nothing.
pub open spec fn replied(
    log: Seq<Exchange>,
    node_id: Seq<char>,
    awaited: Option<Seq<char>>,
    reply: Option<Seq<char>>,
    edge_id: Seq<char>,
    now: i64,
    weight: RealBits,
    r: Read<()>,
) -> bool {
    match awaited {
        Some(id) => if reply is None || confirmed(reply->0) {
            records(log, node_id, id, edge_id, now, weight, r)
        } else {
            log.len() == 0 && r == Read::<()>::Ok(())
        },
        None => log.len() == 0 && r == Read::<()>::Ok(()),
    }
}

/// The linking of one node: the candidates, how many were considered, and the
/// one that a model was asked about.
pub struct Linking {
    node_id: NodeId,
    node: Node,
    candidates: Vec<Candidate>,
    considered: usize,
    pending: Option<NodeId>,
}

impl Linking {
    /// The ID of the node that is linked.
    pub closed spec fn subject_id(&self) -> Seq<char> {
        self.node_id@
    }

    /// The node that is linked.
    pub closed spec fn subject(&self) -> NodeV {
        self.node.deep_view()
    }

    /// The candidates that were not considered yet.
    pub closed spec fn rest(&self) -> Seq<CandidateV> {
        self.candidates.deep_view().skip(self.considered as int)
    }

    /// The candidate that a model was asked about and whose reply is awaited.
    pub closed spec fn awaited(&self) -> Option<Seq<char>> {
        self.pending.deep_view()
    }

    /// No more candidates were considered than there are.
    pub closed spec fn wf(&self) -> bool {
        self.considered <= self.candidates.len()
    }

    /// Starts to link a node to some candidates.
    pub fn new(node_id: NodeId, node: Node, candidates: Vec<Candidate>) -> (r: Linking)
        ensures
            r.wf(),
            r.subject_id() == node_id@,
            r.subject() == node.deep_view(),
            r.rest() == candidates.deep_view(),
            r.awaited() is None,
    {
        let r = Linking { node_id, node, candidates, considered: 0, pending: None };
        assert(r.rest() =~= candidates.deep_view());
        r
    }

    /// Considers the next candidate, if there is one.
    pub fn advance(&mut self, conn: &mut Connection, has_model: bool, seeds: LinkSeeds) -> (r: Result<LinkAction>)
        requires
            old(self).wf(),
        ensures
            final(self).wf(),
            final(self).subject_id() == old(self).subject_id(),
            final(self).subject() == old(self).subject(),
            continues(history(*old(conn)), history(*final(conn))),
            old(self).rest().len() == 0 ==> history(*final(conn)) == history(*old(conn)),
            advances(
                since(history(*old(conn)), history(*final(conn))),
                old(self).subject_id(),
                old(self).subject(),
                old(self).rest(),
                old(self).awaited(),
                has_model,
                seeds,
                outcome(r),
                final(self).rest(),
                final(self).awaited(),
            ),
    {
        let ghost start = history(*conn);
        let ghost rest = self.rest();
        let ghost none = Seq::<Exchange>::empty();
        assert(since(start, start) =~= none);
        if self.considered == self.candidates.len() {
            return Ok(LinkAction::Finished);
        }
        let at: usize = self.considered;
        self.considered = at + 1;
        self.pending = None;
        assert(self.rest() =~= rest.skip(1));
        let candidate = &self.candidates[at];
        assert(rest.first() == candidate.deep_view());
        if same(candidate.id.as_str(), self.node_id.as_str()) {
            proof {
                let r = Read::<LinkActionV>::Ok(LinkActionV::Next);
                assert(considered(
                    none,
                    none,
                    SuspicionV::Clear,
                    none,
                    self.subject_id(),
                    self.subject(),
                    candidate.deep_view(),
                    has_model,
                    seeds,
                    r,
                ));
                assert(since(start, start) =~= none + none + none);
            }
            return Ok(LinkAction::Next);
        }
        let now: i64 = seeds.contradicts.now;
        let related = relate(conn, self.node_id.as_str(), candidate, seeds.related_id.as_str(), now);
        let ghost one = history(*conn);
        let ghost relating = since(start, one);
        if let Err(e) = related {
            proof {
                let r = Read::<LinkActionV>::Err(e.deep_view());
                assert(considered(
                    relating,
                    none,
                    SuspicionV::Clear,
                    none,
                    self.subject_id(),
                    self.subject(),
                    candidate.deep_view(),
                    has_model,
                    seeds,
                    r,
                ));
                assert(since(start, one) =~= relating + none + none);
            }
            return Err(e);
        }
        let suspicion = suspect(conn, &self.node, candidate, has_model);
        let ghost two = history(*conn);
        let ghost suspecting = since(one, two);
        proof {
            lemma_since_join(start, one, two);
            assert(since(start, two) =~= relating + suspecting + none);
        }
        match suspicion {
            Suspicion::Clear => {
                proof {
                    assert(considered(
                        relating,
                        suspecting,
                        suspicion.deep_view(),
                        none,
                        self.subject_id(),
                        self.subject(),
                        candidate.deep_view(),
                        has_model,
                        seeds,
                        Ok(LinkActionV::Next),
                    ));
                }
                Ok(LinkAction::Next)
            },
            Suspicion::Ask(message) => {
                proof {
                    assert(considered(
                        relating,
                        suspecting,
                        suspicion.deep_view(),
                        none,
                        self.subject_id(),
                        self.subject(),
                        candidate.deep_view(),
                        has_model,
                        seeds,
                        Ok(LinkActionV::Ask(message.deep_view())),
                    ));
                }
                self.pending = Some(candidate.id.clone());
                Ok(LinkAction::Ask(message))
            },
            Suspicion::Contradiction => {
                let ghost what = candidate.deep_view();
                let noted = record_contradiction(
                    conn,
                    self.node_id.as_str(),
                    candidate.id.as_str(),
                    seeds.contradicts,
                );
                let ghost noting = since(two, history(*conn));
                let r = match noted {
                    Ok(_) => Ok(LinkAction::Next),
                    Err(e) => Err(e),
                };
                proof {
                    lemma_since_join(start, two, history(*conn));
                    assert(since(start, history(*conn)) =~= relating + suspecting + noting);
                    assert(considered(
                        relating,
                        suspecting,
                        suspicion.deep_view(),
                        noting,
                        self.subject_id(),
                        self.subject(),
                        what,
                        has_model,
                        seeds,
                        outcome(r),
                    ));
                }
                r
            },
        }
    }

    /// Takes the reply of a model that was asked about a candidate, or that it
    /// failed. Where it does not deny the contradiction, that is recorded.
    pub fn answer(&mut self, conn: &mut Connection, reply: Option<&str>, seed: EdgeSeed) -> (r: Result<()>)
        requires
            old(self).wf(),
        ensures
            final(self).wf(),
            final(self).subject_id() == old(self).subject_id(),
            final(self).subject() == old(self).subject(),
            final(self).rest() == old(self).rest(),
            final(self).awaited() is None,
            continues(history(*old(conn)), history(*final(conn))),
            replied(
                since(history(*old(conn)), history(*final(conn))),
                old(self).subject_id(),
                old(self).awaited(),
                reply.deep_view(),
                seed.id@,
                seed.now,
                seed.weight,
                done(r),
            ),
    {
        let ghost start = history(*conn);
        assert(since(start, start) =~= Seq::<Exchange>::empty());
        let pending = self.pending.take();
        match pending {
            Some(id) => if confirms(reply) {
                record_contradiction(conn, self.node_id.as_str(), id.as_str(), seed)
            } else {
                Ok(())
            },
            None => Ok(()),
        }
    }
}

/// Very similar nodes that negate nothing between them never come to a
/// contradiction: nothing is recorded and no model is asked.
pub proof fn law_no_negation_no_contradiction(
    log: Seq<Exchange>,
    node: NodeV,
    candidate: CandidateV,
    has_model: bool,
    suspicion: SuspicionV,
)
    requires
        suspects(log, node, candidate, has_model, suspicion),
        candidate.close ==> !negation_with(node, node_of(log[0].reply)),
    ensures
        suspicion == SuspicionV::Clear,
{
}

/// Without a model, very similar nodes that negate something between them count
/// as a contradiction.
pub proof fn law_negation_decides_without_a_model(
    log: Seq<Exchange>,
    node: NodeV,
    candidate: CandidateV,
    suspicion: SuspicionV,
)
    requires
        suspects(log, node, candidate, false, suspicion),
        candidate.close,
        negation_with(node, node_of(log[0].reply)),
    ensures
        suspicion == SuspicionV::Contradiction,
{
}

/// With a model, a contradiction is never settled before the model was asked,
/// except where the candidate cannot be read any more.
pub proof fn law_a_model_is_asked(log: Seq<Exchange>, node: NodeV, candidate: CandidateV, suspicion: SuspicionV)
    requires
        suspects(log, node, candidate, true, suspicion),
        suspicion == SuspicionV::Contradiction,
    ensures
        candidate.close,
        negation_with(node, node_of(log[0].reply)),
        node_of(log[1].reply) is Err,
{
}

/// Candidates that are not similar enough leave no trace.
pub proof fn law_unlike_nodes_stay_apart(
    log: Seq<Exchange>,
    node_id: Seq<char>,
    node: NodeV,
    candidate: CandidateV,
    has_model: bool,
    seeds: LinkSeeds,
    r: Read<LinkActionV>,
)
    requires
        considers(log, node_id, node, candidate, has_model, seeds, r),
        !candidate.related,
        !candidate.close,
    ensures
        log.len() == 0,
        r == Read::<LinkActionV>::Ok(LinkActionV::Next),
{
}

}
