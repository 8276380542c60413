//! The agent core: one database, one graph.

use rusqlite::Connection;
use vstd::prelude::*;

use crate::db::params::{edge_cells, node_cells};
use crate::db::queries::{
    counts_of, edge_count, get_nodes_by_kind, insert_edge, insert_node, node_count, node_count_by_kind, nodes_of,
    KindCounts, COUNT_BY_KIND, EDGE_COUNT, GET_NODES_BY_KIND, INSERT_EDGE, INSERT_NODE, NODE_COUNT,
};
use crate::db::rows::{count_of, lemma_read_faults, node_row, Read};
use crate::db::{
    completed, continues, executed, history, lemma_since_step, open, opening, opens, rows_of, since, statement,
    Exchange, SCHEMA, SqlV,
};
use crate::error::{done, outcome, Result};
use crate::types::{
    new_edge, node_kind_name, ConsolidationReport, Edge, EdgeId, EdgeKind, EdgeSeed, Node, NodeId, NodeKind, NodeSeed,
    NodeV, RealBits,
};
use crate::upkeep::{consolidate, consolidates, reported};

verus! {

/// What the agent core is configured with.
#[derive(Debug, Clone, Copy)]
pub struct Config {
    /// How many embeddings are kept in memory.
    pub embedding_cache_size: usize,
    /// How many new embeddings make a rebuild of the index worthwhile.
    pub hnsw_rebuild_threshold: usize,
    /// How many candidates are considered when a node is linked.
    pub auto_link_candidates: usize,
    /// How many seconds pass between two steps of decay.
    pub decay_interval_secs: u64,
}

/// The title of the soul.
pub const SOUL_TITLE: &'static str = "Core identity";

/// The body of the soul.
pub const SOUL_BODY: &'static str =
    "You are an agent with a persistent memory graph. Your identity, beliefs, goals, knowledge, and capabilities are stored as nodes in this graph — use your recall tool to look them up. Use your remember tool to store new things about yourself. You can update or delete any memory, including this soul node. The graph is you — shape it as you learn.";

/// The number one.
pub const ONE: RealBits = 0x3ff0_0000_0000_0000;

/// The number zero.
pub const ZERO: RealBits = 0;

/// The node that an agent starts with: it matters most, is fully trusted, and
/// does not decay.
pub open spec fn soul_node(id: Seq<char>, now: i64) -> NodeV {
    NodeV {
        id,
        kind: NodeKind::Soul,
        title: SOUL_TITLE@,
        body: Some(SOUL_BODY@),
        importance: ONE,
        trust_score: ONE,
        access_count: 0,
        created_at: now,
        last_access: None,
        decay_rate: ZERO,
        embedding: None,
    }
}

/// How the node that an agent starts with is stored.
pub open spec fn seeds_identity(before: Seq<Exchange>, after: Seq<Exchange>, id: Seq<char>, now: i64, r: Read<()>) -> bool {
    &&& executed(before, after, statement(INSERT_NODE@, node_cells(soul_node(id, now))))
    &&& r == completed(after.last().reply)
}

/// Stores the node that an agent starts with.
pub fn seed_identity(conn: &mut Connection, seed: NodeSeed) -> (r: Result<()>)
    ensures
        seeds_identity(history(*old(conn)), history(*final(conn)), seed.id@, seed.now, done(r)),
{
    let soul = Node::new(NodeKind::Soul, SOUL_TITLE, seed).with_body(SOUL_BODY).with_importance(ONE).with_trust(
        ONE,
    ).with_decay_rate(ZERO);
    insert_node(conn, &soul)
}

/// How an agent gets its identity: where there is no soul, one is stored.
pub open spec fn identifies(log: Seq<Exchange>, id: Seq<char>, now: i64, r: Read<()>) -> bool {
    &&& log.len() > 0
    &&& log[0].statement == statement(GET_NODES_BY_KIND@, seq![SqlV::Text(node_kind_name(NodeKind::Soul))])
    &&& log[0].reply is Rows
    &&& match nodes_of(log[0].reply) {
        Err(f) => log.len() == 1 && r == Read::<()>::Err(f),
        Ok(souls) => if souls.len() > 0 {
            log.len() == 1 && r == Read::<()>::Ok(())
        } else {
            &&& log.len() == 2
            &&& log[1].statement == statement(INSERT_NODE@, node_cells(soul_node(id, now)))
            &&& log[1].reply is Changed
            &&& r == completed(log[1].reply)
        },
    }
}

/// Gives an agent its identity, unless it has one.
pub fn ensure_identity(conn: &mut Connection, seed: NodeSeed) -> (r: Result<()>)
    ensures
        continues(history(*old(conn)), history(*final(conn))),
        identifies(since(history(*old(conn)), history(*final(conn))), seed.id@, seed.now, done(r)),
{
    let ghost start = history(*conn);
    assert(since(start, start) =~= Seq::<Exchange>::empty());
    let souls = get_nodes_by_kind(conn, NodeKind::Soul);
    let ghost one = history(*conn);
    proof {
        lemma_since_step(start, start, one);
    }
    let souls = souls?;
    if souls.len() > 0 {
        return Ok(());
    }
    let seeded = seed_identity(conn, seed);
    proof {
        lemma_since_step(start, one, history(*conn));
    }
    seeded
}

/// Nodes that cannot be read are so for the database or for a column.
proof fn lemma_identity_faults(log: Seq<Exchange>, id: Seq<char>, now: i64, r: Read<()>)
    requires
        identifies(log, id, now, r),
    ensures
        r matches Err(f) ==> f is Sqlite || f is Column,
{
    if rows_of(log[0].reply) is Ok {
        lemma_read_faults(rows_of(log[0].reply)->Ok_0, |row: Seq<SqlV>| node_row(row));
    }
}

/// The agent core.
pub struct CortexEmbedded {
    conn: Connection,
    config: Config,
}

/// An agent that is started on a connection has its identity, or not.
pub open spec fn awakened(fresh: Connection, tried: Connection, id: Seq<char>, now: i64, r: Read<()>) -> bool {
    &&& continues(history(fresh), history(tried))
    &&& identifies(since(history(fresh), history(tried)), id, now, r)
}

/// Whether an agent was started.
pub open spec fn identity_of(r: Result<CortexEmbedded>) -> Read<()> {
    match r {
        Ok(_) => Ok(()),
        Err(e) => Err(e.deep_view()),
    }
}

/// What comes of a database that was opened, or not: an agent on it where it has
/// its identity, or the error.
pub open spec fn awakens(
    opened: Result<Connection>,
    config: Config,
    id: Seq<char>,
    now: i64,
    r: Result<CortexEmbedded>,
) -> bool {
    match opened {
        Err(e) => r == Result::<CortexEmbedded>::Err(e),
        Ok(fresh) => exists|tried: Connection| #[trigger]
            awakened(fresh, tried, id, now, identity_of(r)) && (r matches Ok(cortex) ==> {
                &&& cortex.connection() == tried
                &&& cortex.settings() == config
            }),
    }
}

/// What the graph holds.
pub open spec fn tallies(log: Seq<Exchange>, r: Read<(i64, i64, Map<Seq<char>, i64>)>) -> bool {
    &&& log.len() > 0
    &&& log[0].statement == statement(NODE_COUNT@, Seq::empty())
    &&& log[0].reply is Rows
    &&& match count_of(log[0].reply) {
        Err(f) => log.len() == 1 && r == Read::<(i64, i64, Map<Seq<char>, i64>)>::Err(f),
        Ok(nodes) => {
            &&& log.len() > 1
            &&& log[1].statement == statement(EDGE_COUNT@, Seq::empty())
            &&& log[1].reply is Rows
            &&& match count_of(log[1].reply) {
                Err(f) => log.len() == 2 && r == Read::<(i64, i64, Map<Seq<char>, i64>)>::Err(f),
                Ok(edges) => {
                    &&& log.len() == 3
                    &&& log[2].statement == statement(COUNT_BY_KIND@, Seq::empty())
                    &&& log[2].reply is Rows
                    &&& match counts_of(log[2].reply) {
                        Err(f) => r == Read::<(i64, i64, Map<Seq<char>, i64>)>::Err(f),
                        Ok(by_kind) => r == Read::<(i64, i64, Map<Seq<char>, i64>)>::Ok((nodes, edges, by_kind)),
                    }
                },
            }
        },
    }
}

/// The counts of a graph, or why there are none.
pub open spec fn tallied(r: Result<(i64, i64, KindCounts)>) -> Read<(i64, i64, Map<Seq<char>, i64>)> {
    match r {
        Ok((nodes, edges, by_kind)) => Ok((nodes, edges, by_kind@)),
        Err(e) => Err(e.deep_view()),
    }
}

/// How a node is remembered: it is stored with its embedding. The result is its ID.
pub open spec fn remembers(
    before: Seq<Exchange>,
    after: Seq<Exchange>,
    node: NodeV,
    embedding: Seq<u8>,
    r: Read<Seq<char>>,
) -> bool {
    &&& executed(
        before,
        after,
        statement(INSERT_NODE@, node_cells(NodeV { embedding: Some(embedding), ..node })),
    )
    &&& match completed(after.last().reply) {
        Ok(_) => r == Read::<Seq<char>>::Ok(node.id),
        Err(f) => r == Read::<Seq<char>>::Err(f),
    }
}

/// How two nodes are linked: by a new edge. The result is its ID.
pub open spec fn links(
    before: Seq<Exchange>,
    after: Seq<Exchange>,
    src: Seq<char>,
    dst: Seq<char>,
    kind: EdgeKind,
    seed: EdgeSeed,
    r: Read<Seq<char>>,
) -> bool {
    &&& executed(
        before,
        after,
        statement(INSERT_EDGE@, edge_cells(new_edge(seed.id@, src, dst, kind, seed.now, seed.weight))),
    )
    &&& match completed(after.last().reply) {
        Ok(_) => r == Read::<Seq<char>>::Ok(seed.id@),
        Err(f) => r == Read::<Seq<char>>::Err(f),
    }
}

impl CortexEmbedded {
    /// The connection to the database.
    pub closed spec fn connection(&self) -> Connection {
        self.conn
    }

    /// What the core is configured with.
    pub closed spec fn settings(&self) -> Config {
        self.config
    }

    /// Starts an agent on a database that was opened, or not, and gives it its
    /// identity.
    pub fn on_database(opened: Result<Connection>, config: Config, seed: NodeSeed) -> (r: Result<CortexEmbedded>)
        ensures
            awakens(opened, config, seed.id@, seed.now, r),
    {
        match opened {
            Ok(conn) => {
                let mut conn = conn;
                let identified = ensure_identity(&mut conn, seed);
                assert(awakened(opened->Ok_0, conn, seed.id@, seed.now, done(identified)));
                match identified {
                    Ok(_) => Ok(CortexEmbedded { conn, config }),
                    Err(e) => Err(e),
                }
            },
            Err(e) => Err(e),
        }
    }

    /// Opens the database, or creates it, and gives the agent its identity. Whether
    /// that is possible depends on the disk.
    pub fn open_with_config(path: &str, config: Config, seed: NodeSeed) -> (r: Result<CortexEmbedded>)
        ensures
            exists|opened: Result<Connection>| #[trigger]
                opens(Some(path@), opened) && awakens(opened, config, seed.id@, seed.now, r),
            match r {
                Ok(cortex) => {
                    &&& cortex.settings() == config
                    &&& history(cortex.connection()).len() > 2
                    &&& history(cortex.connection())[0] == opening(Some(path@))
                    &&& history(cortex.connection())[1].statement == statement(SCHEMA@, Seq::empty())
                    &&& history(cortex.connection())[1].reply is Done
                    &&& completed(history(cortex.connection())[1].reply) is Ok
                    &&& identifies(history(cortex.connection()).skip(2), seed.id@, seed.now, Ok(()))
                },
                Err(e) => e is Sqlite || e is Column,
            },
    {
        let ghost id = seed.id@;
        let ghost now = seed.now;
        let opened = open(path);
        let ghost had = opened;
        assert(opens(Some(path@), had));
        let r = CortexEmbedded::on_database(opened, config, seed);
        proof {
            if had is Ok {
                let fresh = had->Ok_0;
                let start = history(fresh);
                let tried = choose|tried: Connection| #[trigger]
                    awakened(fresh, tried, id, now, identity_of(r)) && (r matches Ok(cortex) ==> cortex.connection()
                        == tried);
                let log = since(start, history(tried));
                assert(history(tried).skip(2) =~= log);
                assert(history(tried)[0] == start[0]);
                assert(history(tried)[1] == start[1]);
                lemma_identity_faults(log, id, now, identity_of(r));
            }
        }
        r
    }

    /// Stores a node with its embedding. Returns its ID.
    pub fn remember(&mut self, node: Node, embedding: Vec<u8>) -> (r: Result<NodeId>)
        ensures
            final(self).settings() == old(self).settings(),
            remembers(
                history(old(self).connection()),
                history(final(self).connection()),
                node.deep_view(),
                embedding@,
                outcome(r),
            ),
    {
        let node = node.with_embedding(embedding);
        match insert_node(&mut self.conn, &node) {
            Ok(_) => Ok(node.id),
            Err(e) => Err(e),
        }
    }

    /// Is it worthwhile to rebuild the index with so many new embeddings?
    pub fn needs_rebuild(&self, buffered: usize) -> (r: bool)
        ensures
            r == (buffered >= self.settings().hnsw_rebuild_threshold),
    {
        buffered >= self.config.hnsw_rebuild_threshold
    }

    /// Links two nodes by an edge. Returns its ID.
    pub fn link(&mut self, src: NodeId, dst: NodeId, kind: EdgeKind, seed: EdgeSeed) -> (r: Result<EdgeId>)
        ensures
            final(self).settings() == old(self).settings(),
            links(
                history(old(self).connection()),
                history(final(self).connection()),
                src@,
                dst@,
                kind,
                seed,
                outcome(r),
            ),
    {
        let edge = Edge::new(src, dst, kind, seed);
        match insert_edge(&mut self.conn, &edge) {
            Ok(_) => Ok(edge.id),
            Err(e) => Err(e),
        }
    }

    /// Adjusts the trust in every node to the evidence and settles the
    /// contradictions that can be.
    pub fn consolidate<F: Fn(RealBits, i64, i64) -> Option<RealBits>>(&mut self, adjusted: F) -> (r: Result<
        ConsolidationReport,
    >)
        requires
            forall|trust: RealBits, supports: i64, contradictions: i64| #[trigger]
                call_requires(adjusted, (trust, supports, contradictions)),
        ensures
            final(self).settings() == old(self).settings(),
            continues(history(old(self).connection()), history(final(self).connection())),
            consolidates(
                since(history(old(self).connection()), history(final(self).connection())),
                adjusted,
                reported(r),
            ),
    {
        consolidate(&mut self.conn, adjusted)
    }

    /// Counts the nodes, the edges, and the nodes of each kind.
    pub fn stats(&mut self) -> (r: Result<(i64, i64, KindCounts)>)
        ensures
            final(self).settings() == old(self).settings(),
            continues(history(old(self).connection()), history(final(self).connection())),
            tallies(since(history(old(self).connection()), history(final(self).connection())), tallied(r)),
            r matches Ok((_, _, by_kind)) ==> by_kind.wf(),
    {
        let ghost start = history(self.conn);
        assert(since(start, start) =~= Seq::<Exchange>::empty());
        let nodes = node_count(&mut self.conn);
        let ghost one = history(self.conn);
        proof {
            lemma_since_step(start, start, one);
        }
        let nodes: i64 = nodes?;
        let edges = edge_count(&mut self.conn);
        let ghost two = history(self.conn);
        proof {
            lemma_since_step(start, one, two);
        }
        let edges: i64 = edges?;
        let by_kind = node_count_by_kind(&mut self.conn);
        proof {
            lemma_since_step(start, two, history(self.conn));
        }
        let by_kind = by_kind?;
        Ok((nodes, edges, by_kind))
    }

    /// The connection, for queries of other modules.
    pub fn connection_mut(&mut self) -> (conn: &mut Connection)
        ensures
            *conn == old(self).connection(),
            final(self).connection() == *final(conn),
            final(self).settings() == old(self).settings(),
    {
        &mut self.conn
    }
}

}
