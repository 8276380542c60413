//! The graph: nodes, edges, their kinds, and the messages of a conversation.
//!
//! Scores and weights are real numbers. The library stores, copies and hands
//! them on but computes nothing with them, so it holds each by the bits of its
//! IEEE 754 double.

use vstd::prelude::*;

use crate::text::same;

verus! {

/// The ID of a node.
pub type NodeId = String;

/// The ID of an edge.
pub type EdgeId = String;

/// The bits of an IEEE 754 double.
pub type RealBits = u64;

/// What a node of the graph stands for.
#[derive(Debug, Clone, Copy, PartialEq, Eq, Structural)]
pub enum NodeKind {
    Soul,
    Fact,
    Entity,
    Decision,
    Pattern,
    Goal,
    Session,
    LoopIteration,
    LlmCall,
    ToolCall,
    BackgroundTask,
    UserInput,
    Notification,
}

/// The name under which a node kind is stored.
pub open spec fn node_kind_name(kind: NodeKind) -> Seq<char> {
    match kind {
        NodeKind::Soul => "soul"@,
        NodeKind::Fact => "fact"@,
        NodeKind::Entity => "entity"@,
        NodeKind::Decision => "decision"@,
        NodeKind::Pattern => "pattern"@,
        NodeKind::Goal => "goal"@,
        NodeKind::Session => "session"@,
        NodeKind::LoopIteration => "loop_iteration"@,
        NodeKind::LlmCall => "llm_call"@,
        NodeKind::ToolCall => "tool_call"@,
        NodeKind::BackgroundTask => "background_task"@,
        NodeKind::UserInput => "user_input"@,
        NodeKind::Notification => "notification"@,
    }
}

/// The node kind with a name, if there is one.
pub open spec fn named_node_kind(name: Seq<char>) -> Option<NodeKind> {
    if exists|kind: NodeKind| #[trigger] node_kind_name(kind) == name {
        Some(choose|kind: NodeKind| #[trigger] node_kind_name(kind) == name)
    } else {
        None
    }
}

impl NodeKind {
    /// The name under which the kind is stored.
    pub fn as_str(self) -> (r: &'static str)
        ensures
            r@ == node_kind_name(self),
    {
        match self {
            NodeKind::Soul => "soul",
            NodeKind::Fact => "fact",
            NodeKind::Entity => "entity",
            NodeKind::Decision => "decision",
            NodeKind::Pattern => "pattern",
            NodeKind::Goal => "goal",
            NodeKind::Session => "session",
            NodeKind::LoopIteration => "loop_iteration",
            NodeKind::LlmCall => "llm_call",
            NodeKind::ToolCall => "tool_call",
            NodeKind::BackgroundTask => "background_task",
            NodeKind::UserInput => "user_input",
            NodeKind::Notification => "notification",
        }
    }

    /// The kind with a name.
    pub fn from_str_opt(name: &str) -> (r: Option<NodeKind>)
        ensures
            r == named_node_kind(name@),
    {
        let found = if same(name, "soul") {
            Some(NodeKind::Soul)
        } else if same(name, "fact") {
            Some(NodeKind::Fact)
        } else if same(name, "entity") {
            Some(NodeKind::Entity)
        } else if same(name, "decision") {
            Some(NodeKind::Decision)
        } else if same(name, "pattern") {
            Some(NodeKind::Pattern)
        } else if same(name, "goal") {
            Some(NodeKind::Goal)
        } else if same(name, "session") {
            Some(NodeKind::Session)
        } else if same(name, "loop_iteration") {
            Some(NodeKind::LoopIteration)
        } else if same(name, "llm_call") {
            Some(NodeKind::LlmCall)
        } else if same(name, "tool_call") {
            Some(NodeKind::ToolCall)
        } else if same(name, "background_task") {
            Some(NodeKind::BackgroundTask)
        } else if same(name, "user_input") {
            Some(NodeKind::UserInput)
        } else if same(name, "notification") {
            Some(NodeKind::Notification)
        } else {
            None
        };
        proof {
            if found is Some {
                lemma_node_kind_name_reads_back(found->0);
            }
        }
        found
    }
}

/// The name of a kind leads back to the kind.
pub proof fn lemma_node_kind_name_reads_back(kind: NodeKind)
    ensures
        named_node_kind(node_kind_name(kind)) == Some(kind),
{
    lemma_node_kind_names_differ(kind, named_node_kind(node_kind_name(kind))->0);
}

/// No two node kinds share a name.
pub proof fn lemma_node_kind_names_differ(a: NodeKind, b: NodeKind)
    requires
        node_kind_name(a) == node_kind_name(b),
    ensures
        a == b,
{
    reveal_strlit("soul");
    reveal_strlit("fact");
    reveal_strlit("entity");
    reveal_strlit("decision");
    reveal_strlit("pattern");
    reveal_strlit("goal");
    reveal_strlit("session");
    reveal_strlit("loop_iteration");
    reveal_strlit("llm_call");
    reveal_strlit("tool_call");
    reveal_strlit("background_task");
    reveal_strlit("user_input");
    reveal_strlit("notification");
    let mark = |kind: NodeKind| (node_kind_name(kind)[0], node_kind_name(kind)[1]);
    assert(mark(NodeKind::Soul) == ('s', 'o'));
    assert(mark(NodeKind::Fact) == ('f', 'a'));
    assert(mark(NodeKind::Entity) == ('e', 'n'));
    assert(mark(NodeKind::Decision) == ('d', 'e'));
    assert(mark(NodeKind::Pattern) == ('p', 'a'));
    assert(mark(NodeKind::Goal) == ('g', 'o'));
    assert(mark(NodeKind::Session) == ('s', 'e'));
    assert(mark(NodeKind::LoopIteration) == ('l', 'o'));
    assert(mark(NodeKind::LlmCall) == ('l', 'l'));
    assert(mark(NodeKind::ToolCall) == ('t', 'o'));
    assert(mark(NodeKind::BackgroundTask) == ('b', 'a'));
    assert(mark(NodeKind::UserInput) == ('u', 's'));
    assert(mark(NodeKind::Notification) == ('n', 'o'));
    assert(mark(a) == mark(b));
}

/// How one node of the graph bears on another.
#[derive(Debug, Clone, Copy, PartialEq, Eq, Structural)]
pub enum EdgeKind {
    RelatesTo,
    Contradicts,
    Supports,
    Supersedes,
    DerivesFrom,
    PartOf,
}

/// The name under which an edge kind is stored.
pub open spec fn edge_kind_name(kind: EdgeKind) -> Seq<char> {
    match kind {
        EdgeKind::RelatesTo => "relates_to"@,
        EdgeKind::Contradicts => "contradicts"@,
        EdgeKind::Supports => "supports"@,
        EdgeKind::Supersedes => "supersedes"@,
        EdgeKind::DerivesFrom => "derives_from"@,
        EdgeKind::PartOf => "part_of"@,
    }
}

/// The edge kind with a name, if there is one.
pub open spec fn named_edge_kind(name: Seq<char>) -> Option<EdgeKind> {
    if exists|kind: EdgeKind| #[trigger] edge_kind_name(kind) == name {
        Some(choose|kind: EdgeKind| #[trigger] edge_kind_name(kind) == name)
    } else {
        None
    }
}

impl EdgeKind {
    /// The name under which the kind is stored.
    pub fn as_str(self) -> (r: &'static str)
        ensures
            r@ == edge_kind_name(self),
    {
        match self {
            EdgeKind::RelatesTo => "relates_to",
            EdgeKind::Contradicts => "contradicts",
            EdgeKind::Supports => "supports",
            EdgeKind::Supersedes => "supersedes",
            EdgeKind::DerivesFrom => "derives_from",
            EdgeKind::PartOf => "part_of",
        }
    }

    /// The kind with a name.
    pub fn from_str_opt(name: &str) -> (r: Option<EdgeKind>)
        ensures
            r == named_edge_kind(name@),
    {
        let found = if same(name, "relates_to") {
            Some(EdgeKind::RelatesTo)
        } else if same(name, "contradicts") {
            Some(EdgeKind::Contradicts)
        } else if same(name, "supports") {
            Some(EdgeKind::Supports)
        } else if same(name, "supersedes") {
            Some(EdgeKind::Supersedes)
        } else if same(name, "derives_from") {
            Some(EdgeKind::DerivesFrom)
        } else if same(name, "part_of") {
            Some(EdgeKind::PartOf)
        } else {
            None
        };
        proof {
            if found is Some {
                lemma_edge_kind_name_reads_back(found->0);
            }
        }
        found
    }
}

/// The name of a kind leads back to the kind.
pub proof fn lemma_edge_kind_name_reads_back(kind: EdgeKind)
    ensures
        named_edge_kind(edge_kind_name(kind)) == Some(kind),
{
    lemma_edge_kind_names_differ(kind, named_edge_kind(edge_kind_name(kind))->0);
}

/// No two edge kinds share a name.
pub proof fn lemma_edge_kind_names_differ(a: EdgeKind, b: EdgeKind)
    requires
        edge_kind_name(a) == edge_kind_name(b),
    ensures
        a == b,
{
    reveal_strlit("relates_to");
    reveal_strlit("contradicts");
    reveal_strlit("supports");
    reveal_strlit("supersedes");
    reveal_strlit("derives_from");
    reveal_strlit("part_of");
    let mark = |kind: EdgeKind| (edge_kind_name(kind)[0], edge_kind_name(kind).len());
    assert(mark(EdgeKind::RelatesTo) == ('r', 10nat));
    assert(mark(EdgeKind::Contradicts) == ('c', 11nat));
    assert(mark(EdgeKind::Supports) == ('s', 8nat));
    assert(mark(EdgeKind::Supersedes) == ('s', 10nat));
    assert(mark(EdgeKind::DerivesFrom) == ('d', 12nat));
    assert(mark(EdgeKind::PartOf) == ('p', 7nat));
    assert(mark(a) == mark(b));
}

impl DeepView for NodeKind {
    type V = NodeKind;

    open spec fn deep_view(&self) -> NodeKind {
        *self
    }
}

impl DeepView for EdgeKind {
    type V = EdgeKind;

    open spec fn deep_view(&self) -> EdgeKind {
        *self
    }
}

/// A node of the graph.
#[derive(Debug)]
pub struct Node {
    pub id: NodeId,
    pub kind: NodeKind,
    pub title: String,
    pub body: Option<String>,
    pub importance: RealBits,
    pub trust_score: RealBits,
    pub access_count: i64,
    pub created_at: i64,
    pub last_access: Option<i64>,
    pub decay_rate: RealBits,
    /// The embedding of the node's text: its single-precision numbers, four
    /// bytes each.
    pub embedding: Option<Vec<u8>>,
}

/// What a node says.
pub struct NodeV {
    pub id: Seq<char>,
    pub kind: NodeKind,
    pub title: Seq<char>,
    pub body: Option<Seq<char>>,
    pub importance: RealBits,
    pub trust_score: RealBits,
    pub access_count: i64,
    pub created_at: i64,
    pub last_access: Option<i64>,
    pub decay_rate: RealBits,
    pub embedding: Option<Seq<u8>>,
}

impl DeepView for Node {
    type V = NodeV;

    open spec fn deep_view(&self) -> NodeV {
        NodeV {
            id: self.id@,
            kind: self.kind,
            title: self.title@,
            body: self.body.deep_view(),
            importance: self.importance,
            trust_score: self.trust_score,
            access_count: self.access_count,
            created_at: self.created_at,
            last_access: self.last_access,
            decay_rate: self.decay_rate,
            embedding: match self.embedding {
                Some(bytes) => Some(bytes@),
                None => None,
            },
        }
    }
}

/// The scores that a new node starts with.
#[derive(Debug, Clone, Copy)]
pub struct Scores {
    pub importance: RealBits,
    pub trust_score: RealBits,
    pub decay_rate: RealBits,
}

/// What a new node takes from outside the graph: a fresh ID, the time in
/// seconds since 1970, and its scores.
#[derive(Debug)]
pub struct NodeSeed {
    pub id: NodeId,
    pub now: i64,
    pub scores: Scores,
}

/// A node that was just made: never accessed, without a body or an embedding.
pub open spec fn new_node(id: Seq<char>, kind: NodeKind, title: Seq<char>, now: i64, scores: Scores) -> NodeV {
    NodeV {
        id,
        kind,
        title,
        body: None,
        importance: scores.importance,
        trust_score: scores.trust_score,
        access_count: 0,
        created_at: now,
        last_access: None,
        decay_rate: scores.decay_rate,
        embedding: None,
    }
}

impl Node {
    /// A new node.
    pub fn new(kind: NodeKind, title: &str, seed: NodeSeed) -> (r: Node)
        ensures
            r.deep_view() == new_node(seed.id@, kind, title@, seed.now, seed.scores),
    {
        Node {
            id: seed.id,
            kind,
            title: title.to_owned(),
            body: None,
            importance: seed.scores.importance,
            trust_score: seed.scores.trust_score,
            access_count: 0,
            created_at: seed.now,
            last_access: None,
            decay_rate: seed.scores.decay_rate,
            embedding: None,
        }
    }

    /// A new session node.
    pub fn session(title: &str, seed: NodeSeed) -> (r: Node)
        ensures
            r.deep_view() == new_node(seed.id@, NodeKind::Session, title@, seed.now, seed.scores),
    {
        Node::new(NodeKind::Session, title, seed)
    }

    /// This node with a body.
    pub fn with_body(self, body: &str) -> (r: Node)
        ensures
            r.deep_view() == (NodeV { body: Some(body@), ..self.deep_view() }),
    {
        let mut node = self;
        node.body = Some(body.to_owned());
        node
    }

    /// This node with an importance.
    pub fn with_importance(self, importance: RealBits) -> (r: Node)
        ensures
            r.deep_view() == (NodeV { importance, ..self.deep_view() }),
    {
        let mut node = self;
        node.importance = importance;
        node
    }

    /// This node with a trust score.
    pub fn with_trust(self, trust_score: RealBits) -> (r: Node)
        ensures
            r.deep_view() == (NodeV { trust_score, ..self.deep_view() }),
    {
        let mut node = self;
        node.trust_score = trust_score;
        node
    }

    /// This node with a decay rate.
    pub fn with_decay_rate(self, decay_rate: RealBits) -> (r: Node)
        ensures
            r.deep_view() == (NodeV { decay_rate, ..self.deep_view() }),
    {
        let mut node = self;
        node.decay_rate = decay_rate;
        node
    }

    /// This node with an embedding.
    pub fn with_embedding(self, embedding: Vec<u8>) -> (r: Node)
        ensures
            r.deep_view() == (NodeV { embedding: Some(embedding@), ..self.deep_view() }),
    {
        let mut node = self;
        node.embedding = Some(embedding);
        node
    }
}

/// An edge of the graph, from `src` to `dst`.
#[derive(Debug)]
pub struct Edge {
    pub id: EdgeId,
    pub src: NodeId,
    pub dst: NodeId,
    pub kind: EdgeKind,
    pub weight: RealBits,
    pub created_at: i64,
    pub metadata: Option<String>,
}

/// What an edge says.
pub struct EdgeV {
    pub id: Seq<char>,
    pub src: Seq<char>,
    pub dst: Seq<char>,
    pub kind: EdgeKind,
    pub weight: RealBits,
    pub created_at: i64,
    pub metadata: Option<Seq<char>>,
}

impl DeepView for Edge {
    type V = EdgeV;

    open spec fn deep_view(&self) -> EdgeV {
        EdgeV {
            id: self.id@,
            src: self.src@,
            dst: self.dst@,
            kind: self.kind,
            weight: self.weight,
            created_at: self.created_at,
            metadata: self.metadata.deep_view(),
        }
    }
}

/// What a new edge takes from outside the graph: a fresh ID, the time in
/// seconds since 1970, and its weight.
#[derive(Debug)]
pub struct EdgeSeed {
    pub id: EdgeId,
    pub now: i64,
    pub weight: RealBits,
}

/// An edge that was just made: without metadata.
pub open spec fn new_edge(
    id: Seq<char>,
    src: Seq<char>,
    dst: Seq<char>,
    kind: EdgeKind,
    now: i64,
    weight: RealBits,
) -> EdgeV {
    EdgeV { id, src, dst, kind, weight, created_at: now, metadata: None }
}

impl Edge {
    /// A new edge.
    pub fn new(src: NodeId, dst: NodeId, kind: EdgeKind, seed: EdgeSeed) -> (r: Edge)
        ensures
            r.deep_view() == new_edge(seed.id@, src@, dst@, kind, seed.now, seed.weight),
    {
        Edge { id: seed.id, src, dst, kind, weight: seed.weight, created_at: seed.now, metadata: None }
    }

    /// This edge with a weight.
    pub fn with_weight(self, weight: RealBits) -> (r: Edge)
        ensures
            r.deep_view() == (EdgeV { weight, ..self.deep_view() }),
    {
        let mut edge = self;
        edge.weight = weight;
        edge
    }
}

/// Two nodes that contradict each other.
#[derive(Debug)]
pub struct ContradictionPair {
    pub node_a: NodeId,
    pub node_b: NodeId,
    pub detected_at: i64,
    pub resolved: bool,
}

/// What a contradiction says.
pub struct ContradictionV {
    pub node_a: Seq<char>,
    pub node_b: Seq<char>,
    pub detected_at: i64,
    pub resolved: bool,
}

impl DeepView for ContradictionPair {
    type V = ContradictionV;

    open spec fn deep_view(&self) -> ContradictionV {
        ContradictionV {
            node_a: self.node_a@,
            node_b: self.node_b@,
            detected_at: self.detected_at,
            resolved: self.resolved,
        }
    }
}

/// What a run of trust propagation did.
#[derive(Debug, Clone, Copy, PartialEq, Eq)]
pub struct ConsolidationReport {
    pub nodes_updated: usize,
    pub contradictions_found: usize,
    pub trust_adjustments: usize,
}

/// Who wrote a message of a conversation.
#[derive(Debug, Clone, Copy, PartialEq, Eq, Structural)]
pub enum Role {
    System,
    User,
    Assistant,
    Tool,
}

/// A message of a conversation.
#[derive(Debug)]
pub struct Message {
    pub role: Role,
    pub content: String,
}

/// What a message says.
pub struct MessageV {
    pub role: Role,
    pub content: Seq<char>,
}

impl DeepView for Message {
    type V = MessageV;

    open spec fn deep_view(&self) -> MessageV {
        MessageV { role: self.role, content: self.content@ }
    }
}

impl Message {
    /// A message of the user.
    pub fn user(content: String) -> (r: Message)
        ensures
            r.deep_view() == (MessageV { role: Role::User, content: content@ }),
    {
        Message { role: Role::User, content }
    }

    /// A message that instructs the model.
    pub fn system(content: String) -> (r: Message)
        ensures
            r.deep_view() == (MessageV { role: Role::System, content: content@ }),
    {
        Message { role: Role::System, content }
    }
}

}
