//! The statements that a store keeps to, word for word.
//!
//! What the laws say of a statement rests on its text, so the texts stand here once
//! more: a statement that is worded otherwise is another one, and nothing is known of
//! what it does.

use vstd::prelude::*;

use crate::db::queries::{by_ids_query, placeholders, set_list, unresolved_query, update_statement};
use crate::db::tree::children_query;
use crate::db::{SqlV, StatementV};
use crate::text::decimal;

verus! {

/// The tables of the graph.
pub const SCHEMA: &'static str = "CREATE TABLE IF NOT EXISTS nodes (
    id           TEXT PRIMARY KEY,
    kind         TEXT NOT NULL,
    title        TEXT NOT NULL,
    body         TEXT,
    importance   REAL NOT NULL,
    trust_score  REAL NOT NULL,
    access_count INTEGER NOT NULL DEFAULT 0,
    created_at   INTEGER NOT NULL,
    last_access  INTEGER,
    decay_rate   REAL NOT NULL,
    embedding    BLOB
);

CREATE INDEX IF NOT EXISTS idx_nodes_kind ON nodes(kind);

CREATE TABLE IF NOT EXISTS edges (
    id         TEXT PRIMARY KEY,
    src        TEXT NOT NULL,
    dst        TEXT NOT NULL,
    kind       TEXT NOT NULL,
    weight     REAL NOT NULL,
    created_at INTEGER NOT NULL,
    metadata   TEXT
);

CREATE INDEX IF NOT EXISTS idx_edges_src ON edges(src);
CREATE INDEX IF NOT EXISTS idx_edges_dst ON edges(dst);

CREATE TABLE IF NOT EXISTS contradictions (
    node_a      TEXT NOT NULL,
    node_b      TEXT NOT NULL,
    detected_at INTEGER NOT NULL,
    resolved    INTEGER NOT NULL DEFAULT 0,
    PRIMARY KEY (node_a, node_b)
);

CREATE TABLE IF NOT EXISTS meta (
    key   TEXT PRIMARY KEY,
    value TEXT NOT NULL
);";

/// The table of the sessions.
pub const SESSION_TABLES: &'static str = "CREATE TABLE IF NOT EXISTS managed_sessions (
            node_id     TEXT PRIMARY KEY,
            user_id     TEXT NOT NULL,
            channel     TEXT NOT NULL,
            created_at  INTEGER NOT NULL,
            turn_count  INTEGER NOT NULL DEFAULT 0,
            last_active INTEGER NOT NULL,
            UNIQUE(user_id, channel)
        );

        CREATE INDEX IF NOT EXISTS idx_managed_sessions_user
            ON managed_sessions(user_id);";

pub const MARK_COMPACTED: &'static str = "UPDATE nodes SET body = COALESCE(body, '') || ? WHERE id = ?";

pub const COUNT_BY_KIND: &'static str = "SELECT kind, COUNT(*) FROM nodes GROUP BY kind";

pub const COUNT_CONTRADICTIONS: &'static str = "SELECT COUNT(*) FROM contradictions
         WHERE resolved = 0 AND (node_a = ?1 OR node_b = ?1)";

pub const COUNT_SUPPORTING: &'static str = "SELECT COUNT(*) FROM edges e
         JOIN nodes n ON e.src = n.id
         WHERE e.dst = ?1 AND e.kind = 'supports' AND n.trust_score > ?2";

pub const DELETE_CONTRADICTIONS: &'static str = "DELETE FROM contradictions WHERE node_a = ?1 OR node_b = ?1";

pub const DELETE_EDGES: &'static str = "DELETE FROM edges WHERE src = ?1 OR dst = ?1";

pub const DELETE_NODE: &'static str = "DELETE FROM nodes WHERE id = ?1";

pub const EDGE_COUNT: &'static str = "SELECT COUNT(*) FROM edges";

pub const EDGE_EXISTS: &'static str = "SELECT COUNT(*) FROM edges WHERE src = ?1 AND dst = ?2 AND kind = ?3";

pub const FIND_BY_PREFIX: &'static str = "SELECT id FROM nodes WHERE instr(id, ?1) = 1";

pub const GET_ALL_EDGES: &'static str = "SELECT id, src, dst, kind, weight, created_at, metadata FROM edges";

pub const GET_ALL_EMBEDDINGS: &'static str = "SELECT id, embedding FROM nodes WHERE embedding IS NOT NULL";

pub const GET_ALL_NODES_LIGHT: &'static str = "SELECT id, kind, title, body, importance, trust_score,
                access_count, created_at, last_access, decay_rate
         FROM nodes ORDER BY kind, importance DESC";

pub const GET_ALL_UNRESOLVED: &'static str = "SELECT node_a, node_b, detected_at, resolved FROM contradictions WHERE resolved = 0";

pub const GET_DECAYABLE: &'static str = "SELECT id, importance, decay_rate,
                COALESCE(last_access, created_at) AS la
         FROM nodes
         WHERE decay_rate > 0.0
           AND (last_access IS NULL OR last_access < ?1)
           AND importance > 0.01";

pub const GET_EDGES_FROM: &'static str = "SELECT id, src, dst, kind, weight, created_at, metadata
         FROM edges WHERE src = ?1";

pub const GET_EDGES_TO: &'static str = "SELECT id, src, dst, kind, weight, created_at, metadata
         FROM edges WHERE dst = ?1";

pub const GET_META: &'static str = "SELECT value FROM meta WHERE key = ?1";

pub const GET_NEIGHBORS: &'static str = "SELECT dst, kind FROM edges WHERE src = ?1
         UNION
         SELECT src, kind FROM edges WHERE dst = ?1";

pub const GET_NODE: &'static str = "SELECT id, kind, title, body, importance, trust_score,
                access_count, created_at, last_access, decay_rate, embedding
         FROM nodes WHERE id = ?1";

pub const GET_NODES_BY_KIND: &'static str = "SELECT id, kind, title, body, importance, trust_score,
                access_count, created_at, last_access, decay_rate, embedding
         FROM nodes WHERE kind = ?1";

pub const GET_PENDING_NOTIFICATIONS: &'static str = "SELECT n.id, n.kind, n.title, n.body, n.importance, n.trust_score,
                n.access_count, n.created_at, n.last_access, n.decay_rate
         FROM nodes n
         JOIN edges e ON e.src = n.id
         WHERE n.kind = 'notification'
           AND n.access_count = 0
           AND e.dst = ?1
           AND e.kind = 'part_of'
         ORDER BY n.created_at ASC";

pub const GET_RECENT_SESSION_NODES: &'static str = "SELECT n.id, n.kind, n.title, n.body, n.importance, n.trust_score,
                n.access_count, n.created_at, n.last_access, n.decay_rate, n.embedding
         FROM nodes n
         WHERE n.id IN (SELECT e.src FROM edges e
                        WHERE e.dst = ?1 AND e.kind IN ('part_of', 'derives_from'))
           AND n.kind IN ('user_input', 'fact')
         ORDER BY n.created_at DESC
         LIMIT ?2";

pub const INSERT_CONTRADICTION: &'static str = "INSERT OR IGNORE INTO contradictions (node_a, node_b, detected_at, resolved)
         VALUES (?1, ?2, ?3, 0)";

pub const INSERT_EDGE: &'static str = "INSERT OR IGNORE INTO edges (id, src, dst, kind, weight, created_at, metadata)
         VALUES (?1, ?2, ?3, ?4, ?5, ?6, ?7)";

pub const INSERT_NODE: &'static str = "INSERT INTO nodes (id, kind, title, body, importance, trust_score,
                            access_count, created_at, last_access, decay_rate, embedding)
         VALUES (?1, ?2, ?3, ?4, ?5, ?6, ?7, ?8, ?9, ?10, ?11)";

pub const LIST_ALL: &'static str = "SELECT id, kind, title, body, importance, trust_score,
                    access_count, created_at, last_access, decay_rate
             FROM nodes
             ORDER BY created_at DESC LIMIT ?1";

pub const LIST_BY_KIND: &'static str = "SELECT id, kind, title, body, importance, trust_score,
                    access_count, created_at, last_access, decay_rate
             FROM nodes WHERE kind = ?1
             ORDER BY created_at DESC LIMIT ?2";

pub const NODE_COUNT: &'static str = "SELECT COUNT(*) FROM nodes";

pub const RESOLVE_CONTRADICTION: &'static str = "UPDATE contradictions SET resolved = 1 WHERE node_a = ?1 AND node_b = ?2";

pub const SEARCH_NODES: &'static str = "SELECT id, kind, title, body, importance, trust_score,
                access_count, created_at, last_access, decay_rate, embedding
         FROM nodes
         WHERE title LIKE ?1 ESCAPE '\\' COLLATE NOCASE
            OR body LIKE ?1 ESCAPE '\\' COLLATE NOCASE
         ORDER BY importance DESC, created_at DESC, id ASC LIMIT ?2";

pub const SESSION_ROUTING: &'static str = "SELECT user_id, channel FROM managed_sessions WHERE node_id = ?1";

pub const SET_META: &'static str = "INSERT OR REPLACE INTO meta (key, value) VALUES (?1, ?2)";

pub const TOUCH_NODE: &'static str = "UPDATE nodes SET last_access = ?1, access_count = access_count + 1 WHERE id = ?2";

pub const UPDATE_IMPORTANCE: &'static str = "UPDATE nodes SET importance = ?1 WHERE id = ?2";

pub const UPDATE_TRUST: &'static str = "UPDATE nodes SET trust_score = ?1 WHERE id = ?2";

pub const UPSERT_NODE: &'static str = "INSERT INTO nodes (id, kind, title, body, importance, trust_score,
                            access_count, created_at, last_access, decay_rate, embedding)
         VALUES (?1, ?2, ?3, ?4, ?5, ?6, ?7, ?8, ?9, ?10, ?11)
         ON CONFLICT(id) DO UPDATE SET
           kind=excluded.kind, title=excluded.title, body=excluded.body,
           importance=excluded.importance, trust_score=excluded.trust_score,
           decay_rate=excluded.decay_rate, embedding=excluded.embedding";

pub const BUMP_SESSION: &'static str = "UPDATE managed_sessions SET last_active = ?1 WHERE node_id = ?2";

pub const COUNT_SESSIONS: &'static str = "SELECT COUNT(*) FROM managed_sessions";

pub const COUNT_TURNS: &'static str = "SELECT COALESCE(SUM(turn_count), 0) FROM managed_sessions";

pub const FIND_SESSION: &'static str = "SELECT node_id, user_id, channel, created_at, turn_count, last_active
                 FROM managed_sessions
                 WHERE user_id = ?1 AND channel = ?2";

pub const INSERT_SESSION: &'static str = "INSERT INTO managed_sessions (node_id, user_id, channel, created_at, turn_count, last_active)
             VALUES (?1, ?2, ?3, ?4, 0, ?5)";

pub const LIST_SESSIONS: &'static str = "SELECT node_id, user_id, channel, created_at, turn_count, last_active
             FROM managed_sessions
             WHERE user_id = ?1
             ORDER BY last_active DESC";

pub const RECORD_TURN: &'static str = "UPDATE managed_sessions SET turn_count = turn_count + 1, last_active = ?1 WHERE node_id = ?2";

pub const LIST_TRUST: &'static str = "SELECT id, trust_score FROM nodes";

/// Numbered parameters up to a number: `?1, ?2` and so on.
pub open spec fn numbered(n: nat) -> Seq<char>
    decreases n,
{
    if n == 0 {
        Seq::empty()
    } else if n == 1 {
        "?1"@
    } else {
        numbered((n - 1) as nat) + ", ?"@ + decimal(n)
    }
}

/// Texts as values, in their order.
pub open spec fn values(ids: Seq<Seq<char>>) -> Seq<SqlV> {
    Seq::new(ids.len(), |i: int| SqlV::Text(ids[i]))
}

/// The query for the nodes with one of some IDs.
pub open spec fn nodes_among(ids: Seq<Seq<char>>) -> StatementV {
    StatementV {
        sql: "SELECT id, kind, title, body, importance, trust_score,
                access_count, created_at, last_access, decay_rate, embedding
         FROM nodes WHERE id IN ("@ + numbered(ids.len()) + ")"@,
        params: values(ids),
    }
}

/// The query for the open contradictions of some nodes.
pub open spec fn open_contradictions_among(ids: Seq<Seq<char>>) -> StatementV {
    StatementV {
        sql: "SELECT node_a, node_b, detected_at, resolved FROM contradictions
         WHERE resolved = 0 AND (node_a IN ("@ + numbered(ids.len()) + ") OR node_b IN ("@ + numbered(ids.len()) + "))"@,
        params: values(ids),
    }
}

/// The query for what hangs directly under one of some nodes.
pub open spec fn children_among(parents: Seq<Seq<char>>) -> StatementV {
    StatementV {
        sql: "SELECT DISTINCT src FROM edges
             WHERE dst IN ("@ + numbered(parents.len()) + ") AND kind IN ('part_of', 'derives_from')"@,
        params: values(parents),
    }
}

/// Columns and their parameters: `title = ?1, body = ?2` and so on.
pub open spec fn columns_set(sets: Seq<(Seq<char>, SqlV)>) -> Seq<char>
    decreases sets.len(),
{
    if sets.len() == 0 {
        Seq::empty()
    } else if sets.len() == 1 {
        sets[0].0 + " = ?1"@
    } else {
        columns_set(sets.drop_last()) + ", "@ + sets.last().0 + " = ?"@ + decimal(sets.len())
    }
}

/// The statement that sets columns of a node.
pub open spec fn columns_update(sets: Seq<(Seq<char>, SqlV)>, id: Seq<char>) -> StatementV {
    StatementV {
        sql: "UPDATE nodes SET "@ + columns_set(sets) + " WHERE id = ?"@ + decimal(sets.len() + 1),
        params: Seq::new(sets.len(), |i: int| sets[i].1).push(SqlV::Text(id)),
    }
}

/// The number one as a numeral.
proof fn lemma_one()
    ensures
        "?"@ + decimal(1) == "?1"@,
        " = ?"@ + decimal(1) == " = ?1"@,
{
    reveal_strlit("?");
    reveal_strlit("?1");
    reveal_strlit(" = ?");
    reveal_strlit(" = ?1");
    reveal_with_fuel(decimal, 2);
    assert("?"@ + decimal(1) =~= "?1"@);
    assert(" = ?"@ + decimal(1) =~= " = ?1"@);
}

/// Placeholders are numbered parameters.
proof fn lemma_placeholders(n: nat)
    ensures
        placeholders(n) == numbered(n),
    decreases n,
{
    lemma_one();
    if n > 1 {
        lemma_placeholders((n - 1) as nat);
    }
}

/// The queries by a list of IDs are worded as they should be.
pub proof fn lemma_list_queries(ids: Seq<Seq<char>>)
    ensures
        by_ids_query(ids) == nodes_among(ids),
        unresolved_query(ids) == open_contradictions_among(ids),
        children_query(ids) == children_among(ids),
{
    lemma_placeholders(ids.len());
    assert(by_ids_query(ids).params =~= values(ids));
    assert(unresolved_query(ids).params =~= values(ids));
    assert(children_query(ids).params =~= values(ids));
}

/// The list of columns of an update is worded as it should be.
proof fn lemma_columns_set(sets: Seq<(Seq<char>, SqlV)>)
    ensures
        set_list(sets) == columns_set(sets),
    decreases sets.len(),
{
    lemma_one();
    if sets.len() == 1 {
        assert(set_list(sets.drop_last()) =~= Seq::<char>::empty());
        assert(set_list(sets) =~= sets[0].0 + (" = ?"@ + decimal(1)));
    } else if sets.len() > 1 {
        lemma_columns_set(sets.drop_last());
    }
}

/// An update is worded as it should be.
pub proof fn lemma_update(sets: Seq<(Seq<char>, SqlV)>, id: Seq<char>)
    ensures
        update_statement(sets, id) == columns_update(sets, id),
{
    lemma_columns_set(sets);
    assert(update_statement(sets, id).params =~= columns_update(sets, id).params);
}

}
