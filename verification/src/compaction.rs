//! Compaction: a long conversation is boiled down to facts that hang under its
//! session.
//!
//! A model extracts the facts. What it is asked, what is read from its reply, and
//! what is stored for each fact is fixed here.

use rusqlite::Connection;
use vstd::prelude::*;
use vstd::string::*;

use crate::db::params::{edge_cells, node_cells, params2, text};
use crate::db::queries::{insert_edge, insert_node, INSERT_EDGE, INSERT_NODE};
use crate::db::rows::Read;
use crate::db::{
    completed, continues, executed, history, lemma_ran_step, lemma_since_step, ran, run, since, statement, went_through,
    Exchange, SqlV, SqlValue, StatementV,
};
use crate::error::{outcome, Result};
use crate::json::{field, items_view, lemma_items_view, parse, parsed, text_of, Json, JsonV};
use crate::text::{decimal, decimal_text, join3, same};
use crate::types::{
    new_edge, new_node, Edge, EdgeKind, EdgeSeed, Message, MessageV, Node, NodeId, NodeKind, NodeSeed, NodeV, RealBits,
    Role, Scores,
};

verus! {

/// What the model is told about its task.
pub const COMPACTION_SYSTEM_PROMPT: &'static str =
    "You are a fact extraction system. Given a conversation history, extract the key facts, decisions, and conclusions as a JSON array of objects. Each object must have:\n- \"title\": a short (3-10 word) title for the fact\n- \"body\": a 1-2 sentence statement of the fact, decision, or conclusion\n- \"kind\": one of \"fact\", \"decision\", \"pattern\", \"goal\"\n\nReturn ONLY valid JSON. No markdown, no explanation. Example:\n[{\"title\": \"JWT tokens expire in 1h\", \"body\": \"The API uses JWT tokens with a 1-hour expiry.\", \"kind\": \"fact\"}]";

/// What stands in front of the conversation.
pub const EXTRACTION_HEAD: &'static str = "Extract key facts from this conversation:\n\n";

/// The name of a role in a conversation.
pub open spec fn role_name(role: Role) -> Seq<char> {
    match role {
        Role::System => "system"@,
        Role::User => "user"@,
        Role::Assistant => "assistant"@,
        Role::Tool => "tool"@,
    }
}

/// A conversation as one text: each message behind the role that wrote it.
pub open spec fn conversation(messages: Seq<MessageV>) -> Seq<char>
    decreases messages.len(),
{
    if messages.len() == 0 {
        Seq::empty()
    } else {
        let last = messages.last();
        conversation(messages.drop_last()) + "["@ + role_name(last.role) + "]: "@ + last.content + "\n\n"@
    }
}

/// The request to a model to extract the facts of a conversation.
pub open spec fn extraction(messages: Seq<MessageV>) -> Seq<MessageV> {
    seq![
        MessageV { role: Role::System, content: COMPACTION_SYSTEM_PROMPT@ },
        MessageV { role: Role::User, content: EXTRACTION_HEAD@ + conversation(messages) },
    ]
}

/// A conversation as one text.
fn conversation_text(messages: &[Message]) -> (r: String)
    ensures
        r@ == conversation(messages.deep_view()),
{
    let ghost all = messages.deep_view();
    let mut r = String::new();
    let mut i: usize = 0;
    while i < messages.len()
        invariant
            i <= messages.len(),
            all == messages.deep_view(),
            r@ == conversation(all.take(i as int)),
        decreases messages.len() - i,
    {
        let message = &messages[i];
        assert(all.take(i + 1).drop_last() =~= all.take(i as int));
        assert(all.take(i + 1).last() == message.deep_view());
        let role = match message.role {
            Role::System => "system",
            Role::User => "user",
            Role::Assistant => "assistant",
            Role::Tool => "tool",
        };
        r.append("[");
        r.append(role);
        r.append("]: ");
        r.append(message.content.as_str());
        r.append("\n\n");
        i = i + 1;
    }
    assert(all.take(all.len() as int) =~= all);
    r
}

/// The request to a model to extract the facts of a conversation.
pub fn extraction_messages(messages: &[Message]) -> (r: Vec<Message>)
    ensures
        r.deep_view() == extraction(messages.deep_view()),
{
    let mut request = EXTRACTION_HEAD.to_owned();
    request.append(conversation_text(messages).as_str());
    let r = vec![Message::system(COMPACTION_SYSTEM_PROMPT.to_owned()), Message::user(request)];
    assert(r.deep_view() =~= extraction(messages.deep_view()));
    r
}

/// A fact that a model extracted.
#[derive(Debug)]
pub struct ExtractedFact {
    pub title: String,
    pub body: String,
    pub kind: NodeKind,
}

/// What an extracted fact says.
pub struct ExtractedV {
    pub title: Seq<char>,
    pub body: Seq<char>,
    pub kind: NodeKind,
}

impl DeepView for ExtractedFact {
    type V = ExtractedV;

    open spec fn deep_view(&self) -> ExtractedV {
        ExtractedV { title: self.title@, body: self.body@, kind: self.kind }
    }
}

/// The text `key` of a value, or `other` where there is none.
pub open spec fn text_or(value: JsonV, key: Seq<char>, other: Seq<char>) -> Seq<char> {
    match text_of(field(value, key)) {
        Some(t) => t,
        None => other,
    }
}

/// The kind of node that a model means by a name.
pub open spec fn extracted_kind(name: Seq<char>) -> NodeKind {
    if name == "decision"@ {
        NodeKind::Decision
    } else if name == "pattern"@ {
        NodeKind::Pattern
    } else if name == "goal"@ {
        NodeKind::Goal
    } else {
        NodeKind::Fact
    }
}

/// The fact in an item of a model's reply. What is missing is made up for.
pub open spec fn extracted_fact(item: JsonV) -> ExtractedV {
    ExtractedV {
        title: text_or(item, "title"@, "Extracted fact"@),
        body: text_or(item, "body"@, ""@),
        kind: extracted_kind(text_or(item, "kind"@, "fact"@)),
    }
}

/// The facts in a reply that was read as JSON: one for each item where it is a
/// list, and none otherwise.
pub open spec fn facts_in(reply: Option<JsonV>) -> Seq<ExtractedV> {
    match reply {
        Some(JsonV::Array(items)) => Seq::new(items.len(), |i: int| extracted_fact(items[i])),
        _ => Seq::empty(),
    }
}

/// The facts in a model's reply.
pub open spec fn extracted_facts(reply: Seq<char>) -> Seq<ExtractedV> {
    facts_in(parsed(reply))
}

/// The text `key` of a value, or `other` where there is none.
fn get_text_or<'a>(value: &'a Json, key: &str, other: &'a str) -> (r: &'a str)
    ensures
        r@ == text_or(value.deep_view(), key@, other@),
{
    match value.get_text(key) {
        Some(t) => t,
        None => other,
    }
}

/// Reads the fact in an item of a model's reply.
fn read_fact(item: &Json) -> (r: ExtractedFact)
    ensures
        r.deep_view() == extracted_fact(item.deep_view()),
{
    let name = get_text_or(item, "kind", "fact");
    let kind = if same(name, "decision") {
        NodeKind::Decision
    } else if same(name, "pattern") {
        NodeKind::Pattern
    } else if same(name, "goal") {
        NodeKind::Goal
    } else {
        NodeKind::Fact
    };
    ExtractedFact {
        title: get_text_or(item, "title", "Extracted fact").to_owned(),
        body: get_text_or(item, "body", "").to_owned(),
        kind,
    }
}

/// Reads the facts in a reply that was read as JSON.
pub fn read_parsed_facts(reply: Option<Json>) -> (r: Vec<ExtractedFact>)
    ensures
        r.deep_view() == facts_in(reply.deep_view()),
{
    let mut facts: Vec<ExtractedFact> = Vec::new();
    assert(facts.deep_view() =~= Seq::<ExtractedV>::empty());
    if let Some(Json::Array(items)) = reply {
        proof {
            lemma_items_view(items@);
        }
        let mut i: usize = 0;
        while i < items.len()
            invariant
                i <= items.len(),
                facts.len() == i,
                forall|j: int| 0 <= j < i ==> (#[trigger] facts[j]).deep_view() == extracted_fact(items[j].deep_view()),
            decreases items.len() - i,
        {
            facts.push(read_fact(&items[i]));
            i = i + 1;
        }
        assert(facts.deep_view() =~= facts_in(Some(JsonV::Array(items_view(items@)))));
    }
    facts
}

/// Reads the facts in a model's reply.
pub fn read_facts(reply: &str) -> (r: Vec<ExtractedFact>)
    ensures
        r.deep_view() == extracted_facts(reply@),
{
    read_parsed_facts(parse(reply))
}

/// The node that a fact is kept in.
pub open spec fn fact_node(fact: ExtractedV, id: Seq<char>, now: i64, scores: Scores, embedding: Seq<u8>) -> NodeV {
    NodeV {
        body: Some(fact.body),
        embedding: Some(embedding),
        ..new_node(id, fact.kind, fact.title, now, scores)
    }
}

/// The statements that store a fact: its node, and the edge to the session that
/// it derives from.
pub open spec fn storing(
    session: Seq<char>,
    node: NodeV,
    edge_id: Seq<char>,
    now: i64,
    weight: RealBits,
) -> Seq<StatementV> {
    seq![
        statement(INSERT_NODE@, node_cells(node)),
        statement(
            INSERT_EDGE@,
            edge_cells(new_edge(edge_id, node.id, session, EdgeKind::DerivesFrom, now, weight)),
        ),
    ]
}

pub const MARK_COMPACTED: &'static str = "UPDATE nodes SET body = COALESCE(body, '') || ? WHERE id = ?";

/// What is added to the body of a session that was compacted.
pub open spec fn compaction_mark(count: nat) -> Seq<char> {
    "\n\n[Compacted. "@ + decimal(count) + " facts extracted.]"@
}

/// The statement that marks a session as compacted.
pub open spec fn mark_statement(session: Seq<char>, count: nat) -> StatementV {
    statement(MARK_COMPACTED@, seq![SqlV::Text(compaction_mark(count)), SqlV::Text(session)])
}

/// How the next fact is stored, where there is one. `left` are the facts that are left,
/// and `more` is how many more are stored; a failure leaves them as they were. The
/// result is the ID of the fact's node.
pub open spec fn stores(
    log: Seq<Exchange>,
    session: Seq<char>,
    facts: Seq<ExtractedV>,
    embedding: Seq<u8>,
    seed: NodeSeed,
    edge: EdgeSeed,
    r: Read<Option<Seq<char>>>,
    left: Seq<ExtractedV>,
    more: int,
) -> bool {
    if facts.len() == 0 {
        log.len() == 0 && r == Read::<Option<Seq<char>>>::Ok(None) && left == facts && more == 0
    } else {
        let node = fact_node(facts.first(), seed.id@, seed.now, seed.scores, embedding);
        let statements = storing(session, node, edge.id@, edge.now, edge.weight);
        match r {
            Ok(id) => {
                &&& ran(log, statements, Ok(()))
                &&& id == Some(seed.id@)
                &&& left == facts.skip(1)
                &&& more == 1
            },
            Err(f) => ran(log, statements, Err(f)) && left == facts && more == 0,
        }
    }
}

/// How a compaction ends: the session is marked, where any fact was stored. The result
/// is how many were.
pub open spec fn finishes(
    before: Seq<Exchange>,
    after: Seq<Exchange>,
    session: Seq<char>,
    count: nat,
    r: Read<usize>,
) -> bool {
    if count == 0 {
        after == before && r == Read::<usize>::Ok(0)
    } else {
        &&& executed(before, after, mark_statement(session, count))
        &&& match completed(after.last().reply) {
            Ok(_) => r matches Ok(n) && n == count,
            Err(f) => r == Read::<usize>::Err(f),
        }
    }
}

/// The compaction of a session: the facts, and how many of them were stored.
pub struct Compaction {
    session_id: NodeId,
    facts: Vec<ExtractedFact>,
    stored: usize,
}

impl Compaction {
    /// The session that is compacted.
    pub closed spec fn session(&self) -> Seq<char> {
        self.session_id@
    }

    /// The facts that were not stored yet.
    pub closed spec fn rest(&self) -> Seq<ExtractedV> {
        self.facts.deep_view().skip(self.stored as int)
    }

    /// How many facts were stored.
    pub closed spec fn count(&self) -> nat {
        self.stored as nat
    }

    /// No more facts were stored than there are.
    pub closed spec fn wf(&self) -> bool {
        self.stored <= self.facts.len()
    }

    /// Starts to compact a session from a model's reply.
    pub fn new(session_id: NodeId, reply: &str) -> (r: Compaction)
        ensures
            r.wf(),
            r.session() == session_id@,
            r.rest() == extracted_facts(reply@),
            r.count() == 0,
    {
        let facts = read_facts(reply);
        let r = Compaction { session_id, facts, stored: 0 };
        assert(r.rest() =~= facts.deep_view());
        r
    }

    /// The next fact to store.
    pub fn next(&self) -> (r: Option<&ExtractedFact>)
        requires
            self.wf(),
        ensures
            match r {
                Some(fact) => self.rest().len() > 0 && self.rest().first() == fact.deep_view(),
                None => self.rest().len() == 0,
            },
    {
        if self.stored < self.facts.len() {
            Some(&self.facts[self.stored])
        } else {
            None
        }
    }

    /// Stores the next fact with its embedding, where there is one. Returns the ID
    /// of its node.
    pub fn store(&mut self, conn: &mut Connection, embedding: Vec<u8>, seed: NodeSeed, edge: EdgeSeed) -> (r: Result<
        Option<NodeId>,
    >)
        requires
            old(self).wf(),
        ensures
            final(self).wf(),
            final(self).session() == old(self).session(),
            continues(history(*old(conn)), history(*final(conn))),
            stores(
                since(history(*old(conn)), history(*final(conn))),
                old(self).session(),
                old(self).rest(),
                embedding@,
                seed,
                edge,
                outcome(r),
                final(self).rest(),
                final(self).count() - old(self).count(),
            ),
    {
        let ghost start = history(*conn);
        let ghost none = Seq::<Exchange>::empty();
        let ghost rest = self.rest();
        assert(since(start, start) =~= none);
        if self.stored == self.facts.len() {
            return Ok(None);
        }
        let fact = &self.facts[self.stored];
        assert(fact.deep_view() == rest.first());
        let node_id = seed.id.clone();
        let ghost kept = fact_node(rest.first(), seed.id@, seed.now, seed.scores, embedding@);
        let ghost statements = storing(self.session(), kept, edge.id@, edge.now, edge.weight);
        let node = Node::new(fact.kind, fact.title.as_str(), seed).with_body(fact.body.as_str()).with_embedding(embedding);
        assert(went_through(none, statements.take(0)));
        let inserted = insert_node(conn, &node);
        let ghost one = history(*conn);
        proof {
            lemma_since_step(start, start, one);
            lemma_ran_step(none, statements, one.last());
        }
        if let Err(e) = inserted {
            return Err(e);
        }
        let link = Edge::new(node_id.clone(), self.session_id.clone(), EdgeKind::DerivesFrom, edge);
        let linked = insert_edge(conn, &link);
        proof {
            lemma_since_step(start, one, history(*conn));
            lemma_ran_step(none.push(one.last()), statements, history(*conn).last());
            assert(statements.take(2) =~= statements);
        }
        if let Err(e) = linked {
            return Err(e);
        }
        self.stored = self.stored + 1;
        assert(self.rest() =~= rest.skip(1));
        Ok(Some(node_id))
    }

    /// Ends the compaction: marks the session, where any fact was stored. Returns
    /// how many were.
    pub fn finish(self, conn: &mut Connection) -> (r: Result<usize>)
        requires
            self.wf(),
        ensures
            finishes(
                history(*old(conn)),
                history(*final(conn)),
                self.session(),
                self.count(),
                outcome(r),
            ),
    {
        if self.stored == 0 {
            return Ok(0);
        }
        let mark = join3("\n\n[Compacted. ", decimal_text(self.stored).as_str(), " facts extracted.]");
        match run(conn, MARK_COMPACTED, params2(SqlValue::Text(mark), text(self.session_id.as_str()))) {
            Ok(_) => Ok(self.stored),
            Err(e) => Err(e),
        }
    }
}

}
