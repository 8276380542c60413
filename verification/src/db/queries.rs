//! The queries of the graph: what each asks the database, and what it makes of
//! the answer.

use rusqlite::Connection;
use vstd::prelude::*;
use vstd::string::*;

use super::params::{
    edge_cells, edge_params, integer, no_params, node_cells, node_params, number, params1, params2, params3, text,
};
use super::rows::{
    all_of, contradiction_row, count_of, decayable_row, edge_row, embedding_row, fetch_all, fetch_count, fetch_first,
    first_of, first_row, law_all_rows_are_read, law_edge_reads_back, law_node_reads_back, law_readable_rows_are_read,
    light_node_row, named_count_row, neighbor_row, node_row, open_contradiction_row, read_all, read_first,
    row_to_contradiction, row_to_decayable, row_to_edge, row_to_embedding, row_to_light_node, row_to_named_count,
    row_to_id, row_to_neighbor, row_to_node, row_to_open_contradiction, row_to_src, row_to_text_pair, row_to_value,
    text_column, text_pair_row, Read,
};
use super::tree::{children_of, children_query, fresh, texts, walks, CHILDREN_HEAD, CHILDREN_TAIL};
use super::{
    changed, completed, continues, execute, executed, history, lemma_broke_off_early, lemma_ran_join, lemma_ran_step,
    lemma_since_join, lemma_since_step, prepare, queried, query, ran, rows_of, run, since, statement, went_through,
    Exchange, ReplyV, RowV, SqlV, SqlValue, StatementV,
};
use crate::error::{done, outcome, Result};
use crate::session::{create_tables, tables_first};
use crate::text::{characters, decimal, decimal_text, join3, same};
use crate::types::{
    edge_kind_name, node_kind_name, ContradictionPair, ContradictionV, Edge, EdgeKind, EdgeV, Node, NodeId, NodeKind,
    NodeV, RealBits,
};

verus! {

/// The nodes that answer a query.
pub open spec fn nodes_of(reply: ReplyV) -> Read<Seq<NodeV>> {
    all_of(reply, |row: Seq<SqlV>| node_row(row))
}

/// The nodes that answer a query for nodes without their embeddings.
pub open spec fn light_nodes_of(reply: ReplyV) -> Read<Seq<NodeV>> {
    all_of(reply, |row: Seq<SqlV>| light_node_row(row))
}

/// The node that answers a query for one, if there is one.
pub open spec fn node_of(reply: ReplyV) -> Read<Option<NodeV>> {
    first_of(reply, |row: Seq<SqlV>| node_row(row))
}

/// Whether a statement changed any row.
pub open spec fn any_changed(reply: ReplyV) -> Read<bool> {
    match changed(reply) {
        Ok(n) => Ok(n > 0),
        Err(f) => Err(f),
    }
}

/// Whether something went through, without its value.
pub open spec fn plainly<T>(r: Read<T>) -> Read<()> {
    match r {
        Ok(_) => Ok(()),
        Err(f) => Err(f),
    }
}

pub const INSERT_NODE: &'static str = "INSERT INTO nodes (id, kind, title, body, importance, trust_score,
                            access_count, created_at, last_access, decay_rate, embedding)
         VALUES (?1, ?2, ?3, ?4, ?5, ?6, ?7, ?8, ?9, ?10, ?11)";

/// How a node is stored.
pub open spec fn inserts_node(before: Seq<Exchange>, after: Seq<Exchange>, node: NodeV, r: Read<()>) -> bool {
    &&& executed(before, after, statement(INSERT_NODE@, node_cells(node)))
    &&& r == completed(after.last().reply)
}

/// Stores a new node.
pub fn insert_node(conn: &mut Connection, node: &Node) -> (r: Result<()>)
    ensures
        inserts_node(history(*old(conn)), history(*final(conn)), node.deep_view(), done(r)),
{
    run(conn, INSERT_NODE, node_params(node))
}

pub const UPSERT_NODE: &'static str = "INSERT INTO nodes (id, kind, title, body, importance, trust_score,
                            access_count, created_at, last_access, decay_rate, embedding)
         VALUES (?1, ?2, ?3, ?4, ?5, ?6, ?7, ?8, ?9, ?10, ?11)
         ON CONFLICT(id) DO UPDATE SET
           kind=excluded.kind, title=excluded.title, body=excluded.body,
           importance=excluded.importance, trust_score=excluded.trust_score,
           decay_rate=excluded.decay_rate, embedding=excluded.embedding";

/// How a node is stored, or replaced where its ID is known.
pub open spec fn upserts_node(before: Seq<Exchange>, after: Seq<Exchange>, node: NodeV, r: Read<()>) -> bool {
    &&& executed(before, after, statement(UPSERT_NODE@, node_cells(node)))
    &&& r == completed(after.last().reply)
}

/// Stores a node, or replaces the one with the same ID.
pub fn upsert_node(conn: &mut Connection, node: &Node) -> (r: Result<()>)
    ensures
        upserts_node(history(*old(conn)), history(*final(conn)), node.deep_view(), done(r)),
{
    run(conn, UPSERT_NODE, node_params(node))
}

pub const GET_NODE: &'static str = "SELECT id, kind, title, body, importance, trust_score,
                access_count, created_at, last_access, decay_rate, embedding
         FROM nodes WHERE id = ?1";

/// How a node is looked up.
pub open spec fn gets_node(before: Seq<Exchange>, after: Seq<Exchange>, id: Seq<char>, r: Read<Option<NodeV>>) -> bool {
    &&& queried(before, after, statement(GET_NODE@, seq![SqlV::Text(id)]))
    &&& r == node_of(after.last().reply)
}

/// Finds a node by its ID.
pub fn get_node(conn: &mut Connection, id: &str) -> (r: Result<Option<Node>>)
    ensures
        gets_node(history(*old(conn)), history(*final(conn)), id@, outcome(r)),
{
    fetch_first(conn, GET_NODE, params1(text(id)), row_to_node, Ghost(|row: Seq<SqlV>| node_row(row)))
}

pub const GET_NODES_BY_KIND: &'static str = "SELECT id, kind, title, body, importance, trust_score,
                access_count, created_at, last_access, decay_rate, embedding
         FROM nodes WHERE kind = ?1";

/// How the nodes of a kind are looked up.
pub open spec fn gets_nodes_by_kind(
    before: Seq<Exchange>,
    after: Seq<Exchange>,
    kind: NodeKind,
    r: Read<Seq<NodeV>>,
) -> bool {
    &&& queried(before, after, statement(GET_NODES_BY_KIND@, seq![SqlV::Text(node_kind_name(kind))]))
    &&& r == nodes_of(after.last().reply)
}

/// Finds all nodes of a kind.
pub fn get_nodes_by_kind(conn: &mut Connection, kind: NodeKind) -> (r: Result<Vec<Node>>)
    ensures
        gets_nodes_by_kind(history(*old(conn)), history(*final(conn)), kind, outcome(r)),
{
    fetch_all(conn, GET_NODES_BY_KIND, params1(text(kind.as_str())), row_to_node, Ghost(|row: Seq<SqlV>| node_row(row)))
}

/// A node that was stored is found: a lookup that is answered by the row that the
/// node was stored in gives the node back.
pub proof fn law_stored_node_is_found(node: NodeV, reply: ReplyV)
    requires
        node.embedding matches Some(bytes) ==> bytes.len() % 4 == 0,
        reply matches ReplyV::Rows(Ok(rows)) && rows == seq![RowV::Ok(node_cells(node))],
    ensures
        node_of(reply) == Read::<Option<NodeV>>::Ok(Some(node)),
{
    law_node_reads_back(node);
}

/// A lookup that no row answers finds nothing, and does not fail.
pub proof fn law_missing_node_is_not_found(reply: ReplyV)
    requires
        reply matches ReplyV::Rows(Ok(rows)) && rows.len() == 0,
    ensures
        node_of(reply) == Read::<Option<NodeV>>::Ok(None),
{
}

/// Placeholders for `n` parameters: `?1, ?2, ..., ?n`.
pub open spec fn placeholders(n: nat) -> Seq<char>
    decreases n,
{
    if n == 0 {
        Seq::empty()
    } else if n == 1 {
        "?"@ + decimal(1)
    } else {
        placeholders((n - 1) as nat) + ", ?"@ + decimal(n)
    }
}

/// Placeholders for `n` parameters.
fn placeholder_list(n: usize) -> (r: String)
    ensures
        r@ == placeholders(n as nat),
{
    let mut r = String::new();
    let mut i: usize = 0;
    while i < n
        invariant
            i <= n,
            r@ == placeholders(i as nat),
        decreases n - i,
    {
        i = i + 1;
        if i == 1 {
            r.append("?");
        } else {
            r.append(", ?");
        }
        r.append(decimal_text(i).as_str());
        assert(r@ =~= placeholders(i as nat));
    }
    r
}

/// The parameters that bind a list of IDs.
fn bind_ids(ids: &[NodeId]) -> (r: Vec<SqlValue>)
    ensures
        r.deep_view() == texts(ids.deep_view()),
{
    let mut r: Vec<SqlValue> = Vec::new();
    let mut i: usize = 0;
    while i < ids.len()
        invariant
            i <= ids.len(),
            r.len() == i,
            forall|j: int| 0 <= j < i ==> (#[trigger] r[j]).deep_view() == SqlV::Text(ids[j]@),
        decreases ids.len() - i,
    {
        r.push(SqlValue::Text(ids[i].clone()));
        i = i + 1;
    }
    assert(r.deep_view() =~= texts(ids.deep_view()));
    r
}

pub const BY_IDS_HEAD: &'static str = "SELECT id, kind, title, body, importance, trust_score,
                access_count, created_at, last_access, decay_rate, embedding
         FROM nodes WHERE id IN (";

/// The query for the nodes with one of some IDs.
pub open spec fn by_ids_query(ids: Seq<Seq<char>>) -> StatementV {
    statement(BY_IDS_HEAD@ + placeholders(ids.len()) + ")"@, texts(ids))
}

/// How nodes are looked up by their IDs: no IDs, no question.
pub open spec fn gets_nodes_by_ids(
    before: Seq<Exchange>,
    after: Seq<Exchange>,
    ids: Seq<Seq<char>>,
    r: Read<Seq<NodeV>>,
) -> bool {
    if ids.len() == 0 {
        after == before && r == Read::<Seq<NodeV>>::Ok(Seq::empty())
    } else {
        queried(before, after, by_ids_query(ids)) && r == nodes_of(after.last().reply)
    }
}

/// Finds the nodes with one of some IDs. Nothing is asked where there are none.
pub fn get_nodes_by_ids(conn: &mut Connection, ids: &[NodeId]) -> (r: Result<Vec<Node>>)
    ensures
        gets_nodes_by_ids(history(*old(conn)), history(*final(conn)), ids.deep_view(), outcome(r)),
{
    if ids.len() == 0 {
        let none: Vec<Node> = Vec::new();
        assert(none.deep_view() =~= Seq::<NodeV>::empty());
        return Ok(none);
    }
    let sql = join3(BY_IDS_HEAD, placeholder_list(ids.len()).as_str(), ")");
    fetch_all(conn, sql.as_str(), bind_ids(ids), row_to_node, Ghost(|row: Seq<SqlV>| node_row(row)))
}

/// A text with a backslash before each `%` and `_`.
pub open spec fn escaped(query: Seq<char>) -> Seq<char>
    decreases query.len(),
{
    if query.len() == 0 {
        Seq::empty()
    } else {
        let before = escaped(query.drop_last());
        let c = query.last();
        if c == '%' || c == '_' {
            before.push('\\').push(c)
        } else {
            before.push(c)
        }
    }
}

/// The pattern for texts that hold `query`.
pub open spec fn search_pattern(query: Seq<char>) -> Seq<char> {
    seq!['%'] + escaped(query) + seq!['%']
}

/// The pattern for texts that hold `query`.
fn search_pattern_text(query: &str) -> (r: String)
    ensures
        r@ == search_pattern(query@),
{
    let chars = characters(query);
    let mut r = String::new();
    r.push('%');
    assert(r@ =~= seq!['%'] + escaped(query@.take(0)));
    let mut i: usize = 0;
    while i < chars.len()
        invariant
            chars@ == query@,
            i <= chars.len(),
            r@ == seq!['%'] + escaped(query@.take(i as int)),
        decreases chars.len() - i,
    {
        let c = chars[i];
        assert(query@.take(i + 1).drop_last() =~= query@.take(i as int));
        if c == '%' || c == '_' {
            r.push('\\');
        }
        r.push(c);
        assert(r@ =~= seq!['%'] + escaped(query@.take(i + 1)));
        i = i + 1;
    }
    assert(query@.take(query@.len() as int) =~= query@);
    r.push('%');
    assert(r@ =~= search_pattern(query@));
    r
}

pub const SEARCH_NODES: &'static str = "SELECT id, kind, title, body, importance, trust_score,
                access_count, created_at, last_access, decay_rate, embedding
         FROM nodes
         WHERE title LIKE ?1 ESCAPE '\\' COLLATE NOCASE
            OR body LIKE ?1 ESCAPE '\\' COLLATE NOCASE
         ORDER BY importance DESC, created_at DESC, id ASC LIMIT ?2";

/// How nodes are searched for by their text.
pub open spec fn searches_text(
    before: Seq<Exchange>,
    after: Seq<Exchange>,
    query: Seq<char>,
    limit: usize,
    r: Read<Seq<NodeV>>,
) -> bool {
    &&& queried(
        before,
        after,
        statement(SEARCH_NODES@, seq![SqlV::Text(search_pattern(query)), SqlV::Integer(limit as i64)]),
    )
    &&& r == nodes_of(after.last().reply)
}

/// Finds the nodes whose title or body holds a text, the most important first.
pub fn search_nodes_text(conn: &mut Connection, query: &str, limit: usize) -> (r: Result<Vec<Node>>)
    ensures
        searches_text(history(*old(conn)), history(*final(conn)), query@, limit, outcome(r)),
{
    let params = params2(SqlValue::Text(search_pattern_text(query)), integer(limit as i64));
    fetch_all(conn, SEARCH_NODES, params, row_to_node, Ghost(|row: Seq<SqlV>| node_row(row)))
}

/// What a character of a pattern stands for.
pub enum Wild {
    /// Any text.
    Any,
    /// Any one character.
    One,
    /// A text of one character, as it stands.
    Exactly(Seq<char>),
}

/// The characters of a text, each standing for itself.
pub open spec fn literally(chars: Seq<char>) -> Seq<Wild>
    decreases chars.len(),
{
    if chars.len() == 0 {
        Seq::empty()
    } else {
        seq![Wild::Exactly(seq![chars[0]])] + literally(chars.skip(1))
    }
}

/// What a pattern with the escape character `\` stands for, part by part.
pub open spec fn pattern_meaning(pattern: Seq<char>) -> Seq<Wild>
    decreases pattern.len(),
{
    if pattern.len() == 0 {
        Seq::empty()
    } else if pattern[0] == '\\' && pattern.len() > 1 {
        seq![Wild::Exactly(seq![pattern[1]])] + pattern_meaning(pattern.skip(2))
    } else if pattern[0] == '%' {
        seq![Wild::Any] + pattern_meaning(pattern.skip(1))
    } else if pattern[0] == '_' {
        seq![Wild::One] + pattern_meaning(pattern.skip(1))
    } else {
        seq![Wild::Exactly(seq![pattern[0]])] + pattern_meaning(pattern.skip(1))
    }
}

/// Escaping works character by character, from the front too.
proof fn lemma_escaped_front(query: Seq<char>)
    requires
        query.len() > 0,
    ensures
        escaped(query) == escaped(query.take(1)) + escaped(query.skip(1)),
    decreases query.len(),
{
    if query.len() == 1 {
        assert(query.take(1) =~= query);
        assert(query.skip(1) =~= Seq::<char>::empty());
        assert(escaped(query) =~= escaped(query.take(1)) + escaped(query.skip(1)));
    } else {
        lemma_escaped_front(query.drop_last());
        assert(query.drop_last().take(1) =~= query.take(1));
        assert(query.drop_last().skip(1) =~= query.skip(1).drop_last());
        assert(escaped(query) =~= escaped(query.take(1)) + escaped(query.skip(1)));
    }
}

/// An escaped text in front of `rest` stands for itself, then for what `rest`
/// stands for.
proof fn lemma_escaped_is_literal(query: Seq<char>, rest: Seq<char>)
    requires
        !query.contains('\\'),
    ensures
        pattern_meaning(escaped(query) + rest) == literally(query) + pattern_meaning(rest),
    decreases query.len(),
{
    if query.len() == 0 {
        assert(escaped(query) + rest =~= rest);
        assert(literally(query) =~= Seq::<Wild>::empty());
        assert(literally(query) + pattern_meaning(rest) =~= pattern_meaning(rest));
    } else {
        let c = query[0];
        let tail = query.skip(1);
        let pattern = escaped(query) + rest;
        lemma_escaped_front(query);
        assert(query.take(1) =~= seq![c]);
        assert(seq![c].drop_last() =~= Seq::<char>::empty());
        assert(query.contains(c));
        assert forall|x: char| tail.contains(x) implies query.contains(x) by {
            assert(query[tail.index_of(x) + 1] == x);
        }
        lemma_escaped_is_literal(tail, rest);
        assert(escaped(Seq::<char>::empty()) =~= Seq::<char>::empty());
        if c == '%' || c == '_' {
            assert(escaped(seq![c]) =~= seq!['\\', c]);
            assert(pattern =~= seq!['\\', c] + (escaped(tail) + rest));
            assert(pattern[0] == '\\');
            assert(pattern[1] == c);
            assert(pattern.skip(2) =~= escaped(tail) + rest);
        } else {
            assert(escaped(seq![c]) =~= seq![c]);
            assert(pattern =~= seq![c] + (escaped(tail) + rest));
            assert(pattern[0] == c);
            assert(pattern.skip(1) =~= escaped(tail) + rest);
        }
        assert(literally(query) =~= seq![Wild::Exactly(seq![c])] + literally(tail));
        assert(pattern_meaning(pattern) =~= literally(query) + pattern_meaning(rest));
    }
}

/// A search finds a text as it stands: the pattern for it stands for any text,
/// then the characters searched for, then any text, whatever wildcards they hold.
/// A backslash is not escaped, so texts with one are left out.
pub proof fn law_search_is_literal(query: Seq<char>)
    requires
        !query.contains('\\'),
    ensures
        pattern_meaning(search_pattern(query)) == seq![Wild::Any] + literally(query) + seq![
            Wild::Any,
        ],
{
    let end = seq!['%'];
    lemma_escaped_is_literal(query, end);
    assert(end.skip(1) =~= Seq::<char>::empty());
    assert(pattern_meaning(end) =~= seq![Wild::Any]) by {
        assert(pattern_meaning(Seq::<char>::empty()) =~= Seq::<Wild>::empty());
    }
    let pattern = search_pattern(query);
    assert(pattern.skip(1) =~= escaped(query) + end);
    assert(pattern_meaning(pattern) =~= seq![Wild::Any] + literally(query) + seq![Wild::Any]);
}

pub const UPDATE_IMPORTANCE: &'static str = "UPDATE nodes SET importance = ?1 WHERE id = ?2";

/// How the importance of a node is set.
pub open spec fn updates_importance(
    before: Seq<Exchange>,
    after: Seq<Exchange>,
    id: Seq<char>,
    importance: RealBits,
    r: Read<()>,
) -> bool {
    &&& executed(before, after, statement(UPDATE_IMPORTANCE@, seq![SqlV::Real(importance), SqlV::Text(id)]))
    &&& r == completed(after.last().reply)
}

/// Sets the importance of a node.
pub fn update_node_importance(conn: &mut Connection, id: &str, importance: RealBits) -> (r: Result<()>)
    ensures
        updates_importance(history(*old(conn)), history(*final(conn)), id@, importance, done(r)),
{
    run(conn, UPDATE_IMPORTANCE, params2(number(importance), text(id)))
}

pub const UPDATE_TRUST: &'static str = "UPDATE nodes SET trust_score = ?1 WHERE id = ?2";

/// How the trust score of a node is set.
pub open spec fn updates_trust(
    before: Seq<Exchange>,
    after: Seq<Exchange>,
    id: Seq<char>,
    trust: RealBits,
    r: Read<()>,
) -> bool {
    &&& executed(before, after, statement(UPDATE_TRUST@, seq![SqlV::Real(trust), SqlV::Text(id)]))
    &&& r == completed(after.last().reply)
}

/// Sets the trust score of a node.
pub fn update_node_trust(conn: &mut Connection, id: &str, trust: RealBits) -> (r: Result<()>)
    ensures
        updates_trust(history(*old(conn)), history(*final(conn)), id@, trust, done(r)),
{
    run(conn, UPDATE_TRUST, params2(number(trust), text(id)))
}

pub const TOUCH_NODE: &'static str = "UPDATE nodes SET last_access = ?1, access_count = access_count + 1 WHERE id = ?2";

/// The statements that record an access to each of some nodes.
pub open spec fn touch_statements(now: i64, ids: Seq<Seq<char>>) -> Seq<StatementV> {
    ids.map_values(|id: Seq<char>| statement(TOUCH_NODE@, seq![SqlV::Integer(now), SqlV::Text(id)]))
}

/// The statement is compiled, then runs for one node after the other.
pub open spec fn touches(log: Seq<Exchange>, now: i64, ids: Seq<Seq<char>>, r: Read<()>) -> bool {
    &&& log.len() > 0
    &&& log[0].statement == statement(TOUCH_NODE@, Seq::empty())
    &&& log[0].reply is Compiled
    &&& match completed(log[0].reply) {
        Err(f) => log.len() == 1 && r == Read::<()>::Err(f),
        Ok(_) => ran(log.skip(1), touch_statements(now, ids), r),
    }
}

/// Records an access to each of some nodes.
pub fn touch_nodes(conn: &mut Connection, ids: &[NodeId], now: i64) -> (r: Result<()>)
    ensures
        continues(history(*old(conn)), history(*final(conn))),
        touches(since(history(*old(conn)), history(*final(conn))), now, ids.deep_view(), done(r)),
{
    let ghost start = history(*conn);
    let ghost statements = touch_statements(now, ids.deep_view());
    assert(since(start, start) =~= Seq::<Exchange>::empty());
    let compiled = prepare(conn, TOUCH_NODE);
    let ghost first = history(*conn).last();
    proof {
        lemma_since_step(start, start, history(*conn));
    }
    if let Err(e) = compiled {
        return Err(e);
    }
    assert(since(start, history(*conn)).skip(1) =~= Seq::<Exchange>::empty());
    let mut i: usize = 0;
    while i < ids.len()
        invariant
            start == history(*old(conn)),
            statements == touch_statements(now, ids.deep_view()),
            i <= ids.len(),
            continues(start, history(*conn)),
            since(start, history(*conn)).len() == i + 1,
            since(start, history(*conn))[0] == first,
            first.statement == statement(TOUCH_NODE@, Seq::empty()),
            first.reply is Compiled,
            completed(first.reply) is Ok,
            went_through(since(start, history(*conn)).skip(1), statements.take(i as int)),
        decreases ids.len() - i,
    {
        let ghost before = history(*conn);
        let ghost log = since(start, before);
        let done_one = run(conn, TOUCH_NODE, params2(integer(now), text(ids[i].as_str())));
        proof {
            lemma_since_step(start, before, history(*conn));
            lemma_ran_step(log.skip(1), statements, history(*conn).last());
            assert(log.push(history(*conn).last()).skip(1) =~= log.skip(1).push(history(*conn).last()));
        }
        if let Err(e) = done_one {
            return Err(e);
        }
        i = i + 1;
    }
    assert(statements.take(ids.len() as int) =~= statements);
    Ok(())
}

pub const GET_ALL_EMBEDDINGS: &'static str = "SELECT id, embedding FROM nodes WHERE embedding IS NOT NULL";

/// The IDs and embeddings that answer a query.
pub open spec fn embeddings_of(reply: ReplyV) -> Read<Seq<(Seq<char>, Seq<u8>)>> {
    all_of(reply, |row: Seq<SqlV>| embedding_row(row))
}

/// How all embeddings are loaded.
pub open spec fn gets_embeddings(
    before: Seq<Exchange>,
    after: Seq<Exchange>,
    r: Read<Seq<(Seq<char>, Seq<u8>)>>,
) -> bool {
    &&& queried(before, after, statement(GET_ALL_EMBEDDINGS@, Seq::<SqlV>::empty()))
    &&& r == embeddings_of(after.last().reply)
}

/// Loads the ID and the embedding of every node that has one.
pub fn get_all_embeddings(conn: &mut Connection) -> (r: Result<Vec<(NodeId, Vec<u8>)>>)
    ensures
        gets_embeddings(history(*old(conn)), history(*final(conn)), outcome(r)),
{
    fetch_all(conn, GET_ALL_EMBEDDINGS, no_params(), row_to_embedding, Ghost(|row: Seq<SqlV>| embedding_row(row)))
}

pub const GET_DECAYABLE: &'static str = "SELECT id, importance, decay_rate,
                COALESCE(last_access, created_at) AS la
         FROM nodes
         WHERE decay_rate > 0.0
           AND (last_access IS NULL OR last_access < ?1)
           AND importance > 0.01";

/// How long a node must have rested before it decays: a day, in seconds.
pub const DECAY_REST_SECS: i64 = 86400;

/// The IDs, importances, decay rates and last accesses that answer a query.
pub open spec fn decayable_of(reply: ReplyV) -> Read<Seq<(Seq<char>, RealBits, RealBits, i64)>> {
    all_of(reply, |row: Seq<SqlV>| decayable_row(row))
}

/// How the nodes that may decay are looked up.
pub open spec fn gets_decayable(
    before: Seq<Exchange>,
    after: Seq<Exchange>,
    now: i64,
    r: Read<Seq<(Seq<char>, RealBits, RealBits, i64)>>,
) -> bool {
    &&& queried(before, after, statement(GET_DECAYABLE@, seq![SqlV::Integer((now - DECAY_REST_SECS) as i64)]))
    &&& r == decayable_of(after.last().reply)
}

/// Finds the nodes that may decay: those with a decay rate that were not accessed
/// for a day. Returns the ID, the importance, the decay rate and the last access
/// of each.
pub fn get_decayable_nodes(conn: &mut Connection, now: i64) -> (r: Result<Vec<(NodeId, RealBits, RealBits, i64)>>)
    requires
        i64::MIN + DECAY_REST_SECS <= now,
    ensures
        gets_decayable(history(*old(conn)), history(*final(conn)), now, outcome(r)),
{
    fetch_all(
        conn,
        GET_DECAYABLE,
        params1(integer(now - DECAY_REST_SECS)),
        row_to_decayable,
        Ghost(|row: Seq<SqlV>| decayable_row(row)),
    )
}

/// A column and the value it is set to, if there is one.
pub open spec fn given(column: Seq<char>, value: Option<SqlV>) -> Seq<(Seq<char>, SqlV)> {
    match value {
        Some(v) => seq![(column, v)],
        None => Seq::empty(),
    }
}

/// The columns that an update of a node sets, with their values.
pub open spec fn assignments(
    kind: Option<NodeKind>,
    title: Option<Seq<char>>,
    body: Option<Seq<char>>,
    importance: Option<RealBits>,
    trust_score: Option<RealBits>,
) -> Seq<(Seq<char>, SqlV)> {
    given(
        "kind"@,
        match kind {
            Some(k) => Some(SqlV::Text(node_kind_name(k))),
            None => None,
        },
    ) + given(
        "title"@,
        match title {
            Some(t) => Some(SqlV::Text(t)),
            None => None,
        },
    ) + given(
        "body"@,
        match body {
            Some(b) => Some(SqlV::Text(b)),
            None => None,
        },
    ) + given(
        "importance"@,
        match importance {
            Some(x) => Some(SqlV::Real(x)),
            None => None,
        },
    ) + given(
        "trust_score"@,
        match trust_score {
            Some(x) => Some(SqlV::Real(x)),
            None => None,
        },
    )
}

/// The list that sets the columns: `first = ?1, second = ?2, ...`.
pub open spec fn set_list(sets: Seq<(Seq<char>, SqlV)>) -> Seq<char>
    decreases sets.len(),
{
    if sets.len() == 0 {
        Seq::empty()
    } else {
        let before = set_list(sets.drop_last());
        (if sets.len() == 1 {
            before
        } else {
            before + ", "@
        }) + sets.last().0 + " = ?"@ + decimal(sets.len())
    }
}

/// The statement that sets columns of the node `id`.
pub open spec fn update_statement(sets: Seq<(Seq<char>, SqlV)>, id: Seq<char>) -> StatementV {
    statement(
        "UPDATE nodes SET "@ + set_list(sets) + " WHERE id = ?"@ + decimal(sets.len() + 1),
        sets.map_values(|set: (Seq<char>, SqlV)| set.1).push(SqlV::Text(id)),
    )
}

/// Columns to set, as the text of the statement and its parameters take shape.
struct Update {
    list: String,
    params: Vec<SqlValue>,
    sets: Ghost<Seq<(Seq<char>, SqlV)>>,
}

impl Update {
    /// The text and the parameters are those of the columns.
    spec fn wf(self) -> bool {
        &&& self.list@ == set_list(self.sets@)
        &&& self.params.deep_view() == self.sets@.map_values(|set: (Seq<char>, SqlV)| set.1)
    }

    /// No columns.
    fn new() -> (r: Update)
        ensures
            r.wf(),
            r.sets@ == Seq::<(Seq<char>, SqlV)>::empty(),
    {
        let r = Update { list: String::new(), params: no_params(), sets: Ghost(Seq::empty()) };
        assert(r.params.deep_view() =~= r.sets@.map_values(|set: (Seq<char>, SqlV)| set.1));
        r
    }

    /// Sets one more column, where there is a value for it.
    fn set(self, column: &str, value: Option<SqlValue>) -> (r: Update)
        requires
            self.wf(),
        ensures
            r.wf(),
            r.sets@ == self.sets@ + given(column@, value.deep_view()),
    {
        match value {
            None => {
                assert(self.sets@ + given(column@, value.deep_view()) =~= self.sets@);
                self
            },
            Some(value) => {
                let mut r = self;
                let ghost had = r.params.deep_view();
                let ghost sets = r.sets@.push((column@, value.deep_view()));
                assert(sets.drop_last() =~= r.sets@);
                assert(r.params.deep_view().len() == r.params.len());
                if r.params.len() > 0 {
                    r.list.append(", ");
                }
                r.list.append(column);
                r.list.append(" = ?");
                r.params.push(value);
                r.list.append(decimal_text(r.params.len()).as_str());
                assert(r.params.deep_view() =~= had.push(value.deep_view()));
                r.sets = Ghost(sets);
                assert(r.params.deep_view() =~= sets.map_values(|set: (Seq<char>, SqlV)| set.1));
                assert(sets =~= self.sets@ + given(column@, Some(value.deep_view())));
                r
            },
        }
    }
}

/// A text as an SQL value, where there is one.
fn text_given(t: Option<&str>) -> (r: Option<SqlValue>)
    ensures
        r.deep_view() == match t {
            Some(t) => Some(SqlV::Text(t@)),
            None => None,
        },
{
    match t {
        Some(t) => Some(text(t)),
        None => None,
    }
}

/// A real number as an SQL value, where there is one.
fn number_given(x: Option<RealBits>) -> (r: Option<SqlValue>)
    ensures
        r.deep_view() == match x {
            Some(x) => Some(SqlV::Real(x)),
            None => None,
        },
{
    match x {
        Some(x) => Some(number(x)),
        None => None,
    }
}

/// How some columns of a node are set: those that are given, and nothing where none is.
/// The result tells whether there is such a node.
pub open spec fn updates_fields(
    before: Seq<Exchange>,
    after: Seq<Exchange>,
    id: Seq<char>,
    kind: Option<NodeKind>,
    title: Option<Seq<char>>,
    body: Option<Seq<char>>,
    importance: Option<RealBits>,
    trust_score: Option<RealBits>,
    r: Read<bool>,
) -> bool {
    let sets = assignments(kind, title, body, importance, trust_score);
    if sets.len() == 0 {
        after == before && r == Read::<bool>::Ok(false)
    } else {
        executed(before, after, update_statement(sets, id)) && r == any_changed(after.last().reply)
    }
}

/// Updates the given fields of a node and leaves the others as they are. Returns
/// whether there was anything to update and a node to update it on.
pub fn update_node_fields(
    conn: &mut Connection,
    id: &str,
    kind: Option<NodeKind>,
    title: Option<&str>,
    body: Option<&str>,
    importance: Option<RealBits>,
    trust_score: Option<RealBits>,
) -> (r: Result<bool>)
    ensures
        updates_fields(
            history(*old(conn)),
            history(*final(conn)),
            id@,
            kind,
            title.deep_view(),
            body.deep_view(),
            importance,
            trust_score,
            outcome(r),
        ),
{
    let update = Update::new();
    let kind_value = match kind {
        Some(k) => Some(text(k.as_str())),
        None => None,
    };
    let update = update.set("kind", kind_value);
    let update = update.set("title", text_given(title));
    let update = update.set("body", text_given(body));
    let update = update.set("importance", number_given(importance));
    let update = update.set("trust_score", number_given(trust_score));
    let ghost sets = update.sets@;
    proof {
        assert(sets =~= assignments(kind, title.deep_view(), body.deep_view(), importance, trust_score));
        assert(update.params.deep_view().len() == sets.len() <= 5);
    }
    if update.params.len() == 0 {
        return Ok(false);
    }
    let mut sql = join3("UPDATE nodes SET ", update.list.as_str(), " WHERE id = ?");
    sql.append(decimal_text(update.params.len() + 1).as_str());
    let mut params = update.params;
    let ghost values = params.deep_view();
    params.push(text(id));
    assert(params.deep_view() =~= values.push(SqlV::Text(id@)));
    match execute(conn, sql.as_str(), params) {
        Ok(n) => Ok(n > 0),
        Err(e) => Err(e),
    }
}

pub const DELETE_EDGES: &'static str = "DELETE FROM edges WHERE src = ?1 OR dst = ?1";

pub const DELETE_CONTRADICTIONS: &'static str = "DELETE FROM contradictions WHERE node_a = ?1 OR node_b = ?1";

pub const DELETE_NODE: &'static str = "DELETE FROM nodes WHERE id = ?1";

/// The statements that delete a node: first what refers to it, then the node.
pub open spec fn delete_statements(id: Seq<char>) -> Seq<StatementV> {
    seq![
        statement(DELETE_EDGES@, seq![SqlV::Text(id)]),
        statement(DELETE_CONTRADICTIONS@, seq![SqlV::Text(id)]),
        statement(DELETE_NODE@, seq![SqlV::Text(id)]),
    ]
}

/// Deletes a node with its edges and contradictions. Returns how many nodes were
/// deleted.
fn delete_one(conn: &mut Connection, id: &str) -> (r: Result<usize>)
    ensures
        continues(history(*old(conn)), history(*final(conn))),
        ran(since(history(*old(conn)), history(*final(conn))), delete_statements(id@), plainly(outcome(r))),
        r matches Ok(n) ==> changed(history(*final(conn)).last().reply) == Read::<usize>::Ok(n),
{
    let ghost start = history(*conn);
    let ghost statements = delete_statements(id@);
    assert(since(start, start) =~= Seq::<Exchange>::empty());
    assert(went_through(since(start, start), statements.take(0)));
    let edges = run(conn, DELETE_EDGES, params1(text(id)));
    let ghost one = history(*conn);
    proof {
        lemma_since_step(start, start, one);
        lemma_ran_step(since(start, start), statements, one.last());
    }
    if let Err(e) = edges {
        return Err(e);
    }
    let contradictions = run(conn, DELETE_CONTRADICTIONS, params1(text(id)));
    let ghost two = history(*conn);
    proof {
        lemma_since_step(start, one, two);
        lemma_ran_step(since(start, one), statements, two.last());
    }
    if let Err(e) = contradictions {
        return Err(e);
    }
    let deleted = execute(conn, DELETE_NODE, params1(text(id)));
    proof {
        lemma_since_step(start, two, history(*conn));
        lemma_ran_step(since(start, two), statements, history(*conn).last());
        assert(statements.take(3) =~= statements);
    }
    deleted
}

/// How a node is deleted. The result tells whether there was such a node.
pub open spec fn deletes_node(log: Seq<Exchange>, id: Seq<char>, r: Read<bool>) -> bool {
    &&& ran(log, delete_statements(id), plainly(r))
    &&& r is Ok ==> r == any_changed(log.last().reply)
}

/// Deletes a node with its edges and contradictions. Returns whether there was
/// such a node.
pub fn delete_node(conn: &mut Connection, id: &str) -> (r: Result<bool>)
    ensures
        continues(history(*old(conn)), history(*final(conn))),
        deletes_node(since(history(*old(conn)), history(*final(conn))), id@, outcome(r)),
{
    match delete_one(conn, id) {
        Ok(n) => Ok(n > 0),
        Err(e) => Err(e),
    }
}

/// The statements that delete some nodes, one after the other.
pub open spec fn bulk_delete_statements(ids: Seq<Seq<char>>) -> Seq<StatementV>
    decreases ids.len(),
{
    if ids.len() == 0 {
        Seq::empty()
    } else {
        bulk_delete_statements(ids.drop_last()) + delete_statements(ids.last())
    }
}

/// How many nodes the statements of a bulk deletion deleted.
pub open spec fn deleted_nodes(log: Seq<Exchange>) -> nat
    decreases log.len(),
{
    if log.len() < 3 {
        0
    } else {
        deleted_nodes(log.take(log.len() - 3)) + match changed(log.last().reply) {
            Ok(n) => n as nat,
            Err(_) => 0,
        }
    }
}

/// The statements for some of the nodes come first among those for all.
proof fn lemma_bulk_prefix(ids: Seq<Seq<char>>, upto: int)
    requires
        0 <= upto <= ids.len(),
    ensures
        bulk_delete_statements(ids.take(upto)).is_prefix_of(bulk_delete_statements(ids)),
        bulk_delete_statements(ids).len() == 3 * ids.len(),
    decreases ids.len(),
{
    if upto < ids.len() {
        assert(ids.drop_last().take(upto) =~= ids.take(upto));
        lemma_bulk_prefix(ids.drop_last(), upto);
        let some = bulk_delete_statements(ids.take(upto));
        let all = bulk_delete_statements(ids);
        assert(some =~= all.subrange(0, some.len() as int));
    } else {
        assert(ids.take(upto) =~= ids);
        if ids.len() > 0 {
            lemma_bulk_prefix(ids.drop_last(), ids.len() - 1);
        }
        let all = bulk_delete_statements(ids);
        assert(all =~= all.subrange(0, all.len() as int));
    }
}

/// How several nodes are deleted. The result is how many there were, as far as a number
/// holds it.
pub open spec fn deletes_nodes(log: Seq<Exchange>, ids: Seq<Seq<char>>, r: Read<usize>) -> bool {
    &&& ran(log, bulk_delete_statements(ids), plainly(r))
    &&& r matches Ok(n) ==> n == vstd::math::min(deleted_nodes(log) as int, usize::MAX as int)
}

/// Deletes some nodes with their edges and contradictions. Returns how many were
/// deleted.
pub fn delete_nodes_bulk(conn: &mut Connection, ids: &[NodeId]) -> (r: Result<usize>)
    ensures
        continues(history(*old(conn)), history(*final(conn))),
        deletes_nodes(since(history(*old(conn)), history(*final(conn))), ids.deep_view(), outcome(r)),
{
    let ghost start = history(*conn);
    let ghost all = ids.deep_view();
    assert(since(start, start) =~= Seq::<Exchange>::empty());
    assert(all.take(0) =~= Seq::<Seq<char>>::empty());
    assert(went_through(since(start, start), bulk_delete_statements(all.take(0))));
    let mut deleted: usize = 0;
    let mut i: usize = 0;
    while i < ids.len()
        invariant
            start == history(*old(conn)),
            all == ids.deep_view(),
            i <= ids.len(),
            continues(start, history(*conn)),
            went_through(since(start, history(*conn)), bulk_delete_statements(all.take(i as int))),
            deleted == vstd::math::min(deleted_nodes(since(start, history(*conn))) as int, usize::MAX as int),
        decreases ids.len() - i,
    {
        let ghost before = history(*conn);
        let ghost log = since(start, before);
        let ghost head = bulk_delete_statements(all.take(i as int));
        let ghost whole = bulk_delete_statements(all);
        let one = delete_one(conn, ids[i].as_str());
        let ghost step = since(before, history(*conn));
        proof {
            lemma_since_join(start, before, history(*conn));
            assert(all.take(i + 1).drop_last() =~= all.take(i as int));
            assert(all.take(i + 1).last() == ids[i as int]@);
            lemma_ran_join(log, step, head, delete_statements(ids[i as int]@), plainly(outcome(one)));
            lemma_bulk_prefix(all, i + 1);
        }
        match one {
            Err(e) => {
                proof {
                    let some = bulk_delete_statements(all.take(i + 1));
                    let tail = whole.skip(some.len() as int);
                    assert(whole =~= some + tail);
                    lemma_broke_off_early(log + step, some, tail, e.deep_view());
                }
                return Err(e);
            },
            Ok(n) => {
                proof {
                    assert((log + step).take((log + step).len() - 3) =~= log);
                    assert((log + step).last() == history(*conn).last());
                }
                deleted = deleted.saturating_add(n);
            },
        }
        i = i + 1;
    }
    assert(all.take(ids.len() as int) =~= all);
    Ok(deleted)
}

pub const FIND_BY_PREFIX: &'static str = "SELECT id FROM nodes WHERE instr(id, ?1) = 1";

/// The IDs that answer a query.
pub open spec fn ids_of(reply: ReplyV) -> Read<Seq<Seq<char>>> {
    all_of(reply, |row: Seq<SqlV>| text_column(row, 0, "id"@))
}

/// How IDs are found by what they start with.
pub open spec fn finds_by_prefix(
    before: Seq<Exchange>,
    after: Seq<Exchange>,
    prefix: Seq<char>,
    r: Read<Seq<Seq<char>>>,
) -> bool {
    &&& queried(before, after, statement(FIND_BY_PREFIX@, seq![SqlV::Text(prefix)]))
    &&& r == ids_of(after.last().reply)
}

/// Finds the IDs that start with a prefix, which is taken as it stands: in its
/// case, and without wildcards.
pub fn find_nodes_by_prefix(conn: &mut Connection, prefix: &str) -> (r: Result<Vec<NodeId>>)
    ensures
        finds_by_prefix(history(*old(conn)), history(*final(conn)), prefix@, outcome(r)),
{
    fetch_all(
        conn,
        FIND_BY_PREFIX,
        params1(text(prefix)),
        row_to_id,
        Ghost(|row: Seq<SqlV>| text_column(row, 0, "id"@)),
    )
}

pub const LIST_BY_KIND: &'static str = "SELECT id, kind, title, body, importance, trust_score,
                    access_count, created_at, last_access, decay_rate
             FROM nodes WHERE kind = ?1
             ORDER BY created_at DESC LIMIT ?2";

pub const LIST_ALL: &'static str = "SELECT id, kind, title, body, importance, trust_score,
                    access_count, created_at, last_access, decay_rate
             FROM nodes
             ORDER BY created_at DESC LIMIT ?1";

/// The query for the newest nodes, of one kind or of all.
pub open spec fn list_query(kind: Option<NodeKind>, limit: usize) -> StatementV {
    match kind {
        Some(k) => statement(LIST_BY_KIND@, seq![SqlV::Text(node_kind_name(k)), SqlV::Integer(limit as i64)]),
        None => statement(LIST_ALL@, seq![SqlV::Integer(limit as i64)]),
    }
}

/// How the newest nodes are listed.
pub open spec fn lists_nodes(
    before: Seq<Exchange>,
    after: Seq<Exchange>,
    kind: Option<NodeKind>,
    limit: usize,
    r: Read<Seq<NodeV>>,
) -> bool {
    &&& queried(before, after, list_query(kind, limit))
    &&& r == light_nodes_of(after.last().reply)
}

/// Lists the newest nodes without their embeddings, of one kind or of all,
/// newest first.
pub fn list_nodes_filtered(conn: &mut Connection, kind: Option<NodeKind>, limit: usize) -> (r: Result<Vec<Node>>)
    ensures
        lists_nodes(history(*old(conn)), history(*final(conn)), kind, limit, outcome(r)),
{
    let (sql, params) = match kind {
        Some(k) => (LIST_BY_KIND, params2(text(k.as_str()), integer(limit as i64))),
        None => (LIST_ALL, params1(integer(limit as i64))),
    };
    fetch_all(conn, sql, params, row_to_light_node, Ghost(|row: Seq<SqlV>| light_node_row(row)))
}

pub const GET_ALL_NODES_LIGHT: &'static str = "SELECT id, kind, title, body, importance, trust_score,
                access_count, created_at, last_access, decay_rate
         FROM nodes ORDER BY kind, importance DESC";

/// How all nodes are loaded, without their embeddings.
pub open spec fn gets_all_light(before: Seq<Exchange>, after: Seq<Exchange>, r: Read<Seq<NodeV>>) -> bool {
    &&& queried(before, after, statement(GET_ALL_NODES_LIGHT@, Seq::<SqlV>::empty()))
    &&& r == light_nodes_of(after.last().reply)
}

/// Loads every node without its embedding, by kind and then by importance, the
/// highest first.
pub fn get_all_nodes_light(conn: &mut Connection) -> (r: Result<Vec<Node>>)
    ensures
        gets_all_light(history(*old(conn)), history(*final(conn)), outcome(r)),
{
    fetch_all(conn, GET_ALL_NODES_LIGHT, no_params(), row_to_light_node, Ghost(|row: Seq<SqlV>| light_node_row(row)))
}

/// Is an ID in a list?
fn lists(ids: &Vec<NodeId>, id: &str) -> (r: bool)
    ensures
        r == ids.deep_view().contains(id@),
{
    let mut i: usize = 0;
    while i < ids.len()
        invariant
            i <= ids.len(),
            forall|j: int| 0 <= j < i ==> ids.deep_view()[j] != id@,
        decreases ids.len() - i,
    {
        if same(ids[i].as_str(), id) {
            assert(ids.deep_view()[i as int] == id@);
            return true;
        }
        i = i + 1;
    }
    false
}

/// Collects the IDs of all nodes that hang under a session by `part_of` and
/// `derives_from` edges, the session first.
pub fn collect_session_tree(conn: &mut Connection, session_id: &str) -> (r: Result<Vec<NodeId>>)
    ensures
        continues(history(*old(conn)), history(*final(conn))),
        walks(
            seq![session_id@],
            seq![session_id@],
            since(history(*old(conn)), history(*final(conn))),
            outcome(r),
        ),
{
    let ghost start = history(*conn);
    let ghost root = seq![session_id@];
    let mut visited: Vec<NodeId> = Vec::new();
    visited.push(session_id.to_owned());
    let mut frontier: Vec<NodeId> = Vec::new();
    frontier.push(session_id.to_owned());
    assert(visited.deep_view() =~= root);
    assert(frontier.deep_view() =~= root);
    assert(since(start, start) =~= Seq::<Exchange>::empty());
    assert forall|rest: Seq<Exchange>| since(start, start) + rest == rest by {
        assert(since(start, start) + rest =~= rest);
    }
    while frontier.len() > 0
        invariant
            start == history(*old(conn)),
            root == seq![session_id@],
            continues(start, history(*conn)),
            forall|rest: Seq<Exchange>, res: Read<Seq<Seq<char>>>| #[trigger]
                walks(visited.deep_view(), frontier.deep_view(), rest, res) ==> walks(
                    root,
                    root,
                    since(start, history(*conn)) + rest,
                    res,
                ),
        decreases usize::MAX - visited.len(), frontier.len(),
    {
        let ghost log = since(start, history(*conn));
        let ghost before = history(*conn);
        let ghost had = visited.deep_view();
        let ghost asked_of = frontier.deep_view();
        let sql = join3(CHILDREN_HEAD, placeholder_list(frontier.len()).as_str(), CHILDREN_TAIL);
        let params = bind_ids(frontier.as_slice());
        let found = fetch_all(
            conn,
            sql.as_str(),
            params,
            row_to_src,
            Ghost(|row: Seq<SqlV>| text_column(row, 0, "src"@)),
        );
        let ghost step = history(*conn).last();
        proof {
            lemma_since_step(start, before, history(*conn));
            assert(step.statement == children_query(asked_of));
        }
        let found = match found {
            Err(e) => {
                proof {
                    let one = seq![step];
                    assert(one.first() == step);
                    let res = Read::<Seq<Seq<char>>>::Err(e.deep_view());
                    assert(walks(had, asked_of, one, res));
                    assert(log + one =~= since(start, history(*conn)));
                }
                return Err(e);
            },
            Ok(found) => found,
        };
        let ghost answer = found.deep_view();
        let mut next_frontier: Vec<NodeId> = Vec::new();
        assert(visited.deep_view() =~= had + next_frontier.deep_view());
        let mut i: usize = 0;
        while i < found.len()
            invariant
                i <= found.len(),
                answer == found.deep_view(),
                next_frontier.deep_view() == fresh(had, answer.take(i as int)),
                visited.deep_view() == had + next_frontier.deep_view(),
            decreases found.len() - i,
        {
            let ghost next = next_frontier.deep_view();
            let id = &found[i];
            assert(answer.take(i + 1).drop_last() =~= answer.take(i as int));
            assert(answer.take(i + 1).last() == id@);
            assert(visited.deep_view().contains(id@) <==> had.contains(id@) || next.contains(id@)) by {
                let all = had + next;
                if had.contains(id@) {
                    assert(all[had.index_of(id@)] == id@);
                }
                if next.contains(id@) {
                    assert(all[had.len() + next.index_of(id@)] == id@);
                }
                if all.contains(id@) {
                    let k = all.index_of(id@);
                    if k < had.len() {
                        assert(had[k] == id@);
                    } else {
                        assert(next[k - had.len()] == id@);
                    }
                }
            }
            if !lists(&visited, id.as_str()) {
                let ghost seen = visited.deep_view();
                visited.push(id.clone());
                next_frontier.push(id.clone());
                assert(visited.deep_view() =~= seen.push(id@));
                assert(next_frontier.deep_view() =~= next.push(id@));
                assert(visited.deep_view() =~= had + next_frontier.deep_view());
            }
            i = i + 1;
        }
        frontier = next_frontier;
        proof {
            assert(answer.take(answer.len() as int) =~= answer);
            let now = since(start, history(*conn));
            assert forall|rest: Seq<Exchange>, res: Read<Seq<Seq<char>>>| #[trigger]
                walks(visited.deep_view(), frontier.deep_view(), rest, res) implies walks(root, root, now + rest, res) by {
                let more = seq![step] + rest;
                assert(more.first() == step);
                assert(more.drop_first() =~= rest);
                assert(children_of(step.reply) == Read::<Seq<Seq<char>>>::Ok(answer));
                assert(walks(had, asked_of, more, res));
                assert(log + more =~= now + rest);
            }
        }
    }
    proof {
        let none = Seq::<Exchange>::empty();
        let res = Read::<Seq<Seq<char>>>::Ok(visited.deep_view());
        assert(walks(visited.deep_view(), frontier.deep_view(), none, res));
        assert(since(start, history(*conn)) + none =~= since(start, history(*conn)));
    }
    Ok(visited)
}

pub const GET_RECENT_SESSION_NODES: &'static str = "SELECT n.id, n.kind, n.title, n.body, n.importance, n.trust_score,
                n.access_count, n.created_at, n.last_access, n.decay_rate, n.embedding
         FROM nodes n
         WHERE n.id IN (SELECT e.src FROM edges e
                        WHERE e.dst = ?1 AND e.kind IN ('part_of', 'derives_from'))
           AND n.kind IN ('user_input', 'fact')
         ORDER BY n.created_at DESC
         LIMIT ?2";

/// How the newest nodes of a session are looked up.
pub open spec fn gets_recent(
    before: Seq<Exchange>,
    after: Seq<Exchange>,
    session: Seq<char>,
    limit: usize,
    r: Read<Seq<NodeV>>,
) -> bool {
    &&& queried(
        before,
        after,
        statement(GET_RECENT_SESSION_NODES@, seq![SqlV::Text(session), SqlV::Integer(limit as i64)]),
    )
    &&& r == nodes_of(after.last().reply)
}

/// Finds the newest inputs and facts that hang directly under a session, each
/// once, newest first.
pub fn get_recent_session_nodes(conn: &mut Connection, session_id: &str, limit: usize) -> (r: Result<Vec<Node>>)
    ensures
        gets_recent(history(*old(conn)), history(*final(conn)), session_id@, limit, outcome(r)),
{
    fetch_all(
        conn,
        GET_RECENT_SESSION_NODES,
        params2(text(session_id), integer(limit as i64)),
        row_to_node,
        Ghost(|row: Seq<SqlV>| node_row(row)),
    )
}

pub const GET_PENDING_NOTIFICATIONS: &'static str = "SELECT n.id, n.kind, n.title, n.body, n.importance, n.trust_score,
                n.access_count, n.created_at, n.last_access, n.decay_rate
         FROM nodes n
         JOIN edges e ON e.src = n.id
         WHERE n.kind = 'notification'
           AND n.access_count = 0
           AND e.dst = ?1
           AND e.kind = 'part_of'
         ORDER BY n.created_at ASC";

/// How the notifications that wait for a session are looked up.
pub open spec fn gets_pending(
    before: Seq<Exchange>,
    after: Seq<Exchange>,
    session: Seq<char>,
    r: Read<Seq<NodeV>>,
) -> bool {
    &&& queried(before, after, statement(GET_PENDING_NOTIFICATIONS@, seq![SqlV::Text(session)]))
    &&& r == light_nodes_of(after.last().reply)
}

/// Finds the notifications of a session that were not delivered yet, oldest first.
pub fn get_pending_notification_nodes(conn: &mut Connection, session_id: &str) -> (r: Result<Vec<Node>>)
    ensures
        gets_pending(history(*old(conn)), history(*final(conn)), session_id@, outcome(r)),
{
    fetch_all(
        conn,
        GET_PENDING_NOTIFICATIONS,
        params1(text(session_id)),
        row_to_light_node,
        Ghost(|row: Seq<SqlV>| light_node_row(row)),
    )
}

pub const SESSION_ROUTING: &'static str = "SELECT user_id, channel FROM managed_sessions WHERE node_id = ?1";

/// The user and the channel in the first row that answers a query, where there
/// is one that can be read.
pub open spec fn routing_of(reply: ReplyV) -> Read<Option<(Seq<char>, Seq<char>)>> {
    match rows_of(reply) {
        Err(f) => Err(f),
        Ok(rows) => Ok(
            match read_first(rows, |row: Seq<SqlV>| text_pair_row(row)) {
                Ok(pair) => pair,
                Err(_) => None,
            },
        ),
    }
}

/// How the user and the channel of a session are found.
pub open spec fn routes(log: Seq<Exchange>, session: Seq<char>, r: Read<Option<(Seq<char>, Seq<char>)>>) -> bool {
    &&& tables_first(log)
    &&& match completed(log[0].reply) {
        Err(f) => log.len() == 1 && r == Read::<Option<(Seq<char>, Seq<char>)>>::Err(f),
        Ok(_) => {
            &&& log.len() == 2
            &&& log[1].statement == statement(SESSION_ROUTING@, seq![SqlV::Text(session)])
            &&& log[1].reply is Rows
            &&& r == routing_of(log[1].reply)
        },
    }
}

/// Finds the user and the channel of a session.
pub fn get_session_routing(conn: &mut Connection, session_id: &str) -> (r: Result<Option<(String, String)>>)
    ensures
        continues(history(*old(conn)), history(*final(conn))),
        routes(since(history(*old(conn)), history(*final(conn))), session_id@, outcome(r)),
{
    let ghost start = history(*conn);
    assert(since(start, start) =~= Seq::<Exchange>::empty());
    let tables = create_tables(conn);
    let ghost one = history(*conn);
    proof {
        lemma_since_step(start, start, one);
    }
    if let Err(e) = tables {
        return Err(e);
    }
    let rows = query(conn, SESSION_ROUTING, params1(text(session_id)));
    proof {
        lemma_since_step(start, one, history(*conn));
    }
    match first_row(rows?, row_to_text_pair, Ghost(|row: Seq<SqlV>| text_pair_row(row))) {
        Ok(pair) => Ok(pair),
        Err(_) => Ok(None),
    }
}

pub const INSERT_EDGE: &'static str = "INSERT OR IGNORE INTO edges (id, src, dst, kind, weight, created_at, metadata)
         VALUES (?1, ?2, ?3, ?4, ?5, ?6, ?7)";

/// How an edge is stored.
pub open spec fn inserts_edge(before: Seq<Exchange>, after: Seq<Exchange>, edge: EdgeV, r: Read<()>) -> bool {
    &&& executed(before, after, statement(INSERT_EDGE@, edge_cells(edge)))
    &&& r == completed(after.last().reply)
}

/// Stores an edge, unless it is there.
pub fn insert_edge(conn: &mut Connection, edge: &Edge) -> (r: Result<()>)
    ensures
        inserts_edge(history(*old(conn)), history(*final(conn)), edge.deep_view(), done(r)),
{
    run(conn, INSERT_EDGE, edge_params(edge))
}

/// The edges that answer a query.
pub open spec fn edges_of(reply: ReplyV) -> Read<Seq<EdgeV>> {
    all_of(reply, |row: Seq<SqlV>| edge_row(row))
}

/// Runs a query for edges.
fn read_edges(conn: &mut Connection, sql: &str, params: Vec<SqlValue>) -> (r: Result<Vec<Edge>>)
    ensures
        queried(history(*old(conn)), history(*final(conn)), statement(sql@, params.deep_view())),
        outcome(r) == edges_of(history(*final(conn)).last().reply),
{
    fetch_all(conn, sql, params, row_to_edge, Ghost(|row: Seq<SqlV>| edge_row(row)))
}

pub const GET_EDGES_FROM: &'static str = "SELECT id, src, dst, kind, weight, created_at, metadata
         FROM edges WHERE src = ?1";

/// How the edges that leave a node are looked up.
pub open spec fn gets_edges_from(
    before: Seq<Exchange>,
    after: Seq<Exchange>,
    src: Seq<char>,
    r: Read<Seq<EdgeV>>,
) -> bool {
    &&& queried(before, after, statement(GET_EDGES_FROM@, seq![SqlV::Text(src)]))
    &&& r == edges_of(after.last().reply)
}

/// Finds the edges that leave a node.
pub fn get_edges_from(conn: &mut Connection, src: &str) -> (r: Result<Vec<Edge>>)
    ensures
        gets_edges_from(history(*old(conn)), history(*final(conn)), src@, outcome(r)),
{
    read_edges(conn, GET_EDGES_FROM, params1(text(src)))
}

pub const GET_EDGES_TO: &'static str = "SELECT id, src, dst, kind, weight, created_at, metadata
         FROM edges WHERE dst = ?1";

/// How the edges that enter a node are looked up.
pub open spec fn gets_edges_to(
    before: Seq<Exchange>,
    after: Seq<Exchange>,
    dst: Seq<char>,
    r: Read<Seq<EdgeV>>,
) -> bool {
    &&& queried(before, after, statement(GET_EDGES_TO@, seq![SqlV::Text(dst)]))
    &&& r == edges_of(after.last().reply)
}

/// Finds the edges that enter a node.
pub fn get_edges_to(conn: &mut Connection, dst: &str) -> (r: Result<Vec<Edge>>)
    ensures
        gets_edges_to(history(*old(conn)), history(*final(conn)), dst@, outcome(r)),
{
    read_edges(conn, GET_EDGES_TO, params1(text(dst)))
}

pub const GET_ALL_EDGES: &'static str = "SELECT id, src, dst, kind, weight, created_at, metadata FROM edges";

/// How all edges are loaded.
pub open spec fn gets_all_edges(before: Seq<Exchange>, after: Seq<Exchange>, r: Read<Seq<EdgeV>>) -> bool {
    &&& queried(before, after, statement(GET_ALL_EDGES@, Seq::<SqlV>::empty()))
    &&& r == edges_of(after.last().reply)
}

/// Loads every edge.
pub fn get_all_edges(conn: &mut Connection) -> (r: Result<Vec<Edge>>)
    ensures
        gets_all_edges(history(*old(conn)), history(*final(conn)), outcome(r)),
{
    read_edges(conn, GET_ALL_EDGES, no_params())
}

/// Edges that were stored are found, in the order of the answer.
pub proof fn law_stored_edges_are_found(edges: Seq<EdgeV>, reply: ReplyV)
    requires
        reply matches ReplyV::Rows(Ok(rows)) && rows == Seq::new(
            edges.len(),
            |i: int| RowV::Ok(edge_cells(edges[i])),
        ),
    ensures
        edges_of(reply) == Read::<Seq<EdgeV>>::Ok(edges),
{
    let read = |row: Seq<SqlV>| edge_row(row);
    let rows = rows_of(reply)->Ok_0;
    assert forall|i: int| 0 <= i < rows.len() implies (#[trigger] rows[i] matches Ok(row) && read(row) == Read::<
        EdgeV,
    >::Ok(edges[i])) by {
        law_edge_reads_back(edges[i]);
    }
    law_readable_rows_are_read(rows, read);
    law_all_rows_are_read(rows, read);
    let found = read_all(rows, read)->Ok_0;
    assert forall|i: int| 0 <= i < edges.len() implies found[i] == edges[i] by {
        assert(rows[i] is Ok);
    }
    assert(found =~= edges);
}

pub const EDGE_EXISTS: &'static str = "SELECT COUNT(*) FROM edges WHERE src = ?1 AND dst = ?2 AND kind = ?3";

/// Whether a query that counts found anything.
pub open spec fn any_counted(reply: ReplyV) -> Read<bool> {
    match count_of(reply) {
        Ok(n) => Ok(n > 0),
        Err(f) => Err(f),
    }
}

/// The query whether an edge of a kind leads from one node to another.
pub open spec fn edge_exists_query(src: Seq<char>, dst: Seq<char>, kind: EdgeKind) -> StatementV {
    statement(EDGE_EXISTS@, seq![SqlV::Text(src), SqlV::Text(dst), SqlV::Text(edge_kind_name(kind))])
}

/// How it is found out whether there is an edge.
pub open spec fn asks_for_edge(
    before: Seq<Exchange>,
    after: Seq<Exchange>,
    src: Seq<char>,
    dst: Seq<char>,
    kind: EdgeKind,
    r: Read<bool>,
) -> bool {
    &&& queried(before, after, edge_exists_query(src, dst, kind))
    &&& r == any_counted(after.last().reply)
}

/// Does an edge of a kind lead from one node to another?
pub fn edge_exists(conn: &mut Connection, src: &str, dst: &str, kind: EdgeKind) -> (r: Result<bool>)
    ensures
        asks_for_edge(history(*old(conn)), history(*final(conn)), src@, dst@, kind, outcome(r)),
{
    match fetch_count(conn, EDGE_EXISTS, params3(text(src), text(dst), text(kind.as_str()))) {
        Ok(n) => Ok(n > 0),
        Err(e) => Err(e),
    }
}

pub const GET_NEIGHBORS: &'static str = "SELECT dst, kind FROM edges WHERE src = ?1
         UNION
         SELECT src, kind FROM edges WHERE dst = ?1";

/// The neighbours that answer a query.
pub open spec fn neighbors_of(reply: ReplyV) -> Read<Seq<(Seq<char>, EdgeKind)>> {
    all_of(reply, |row: Seq<SqlV>| neighbor_row(row))
}

/// How the neighbours of a node are looked up.
pub open spec fn gets_neighbors(
    before: Seq<Exchange>,
    after: Seq<Exchange>,
    node_id: Seq<char>,
    r: Read<Seq<(Seq<char>, EdgeKind)>>,
) -> bool {
    &&& queried(before, after, statement(GET_NEIGHBORS@, seq![SqlV::Text(node_id)]))
    &&& r == neighbors_of(after.last().reply)
}

/// Finds the neighbours of a node, along edges in both directions.
pub fn get_neighbors(conn: &mut Connection, node_id: &str) -> (r: Result<Vec<(NodeId, EdgeKind)>>)
    ensures
        gets_neighbors(history(*old(conn)), history(*final(conn)), node_id@, outcome(r)),
{
    fetch_all(conn, GET_NEIGHBORS, params1(text(node_id)), row_to_neighbor, Ghost(|row: Seq<SqlV>| neighbor_row(row)))
}

/// The contradictions that answer a query.
pub open spec fn contradictions_of(reply: ReplyV) -> Read<Seq<ContradictionV>> {
    all_of(reply, |row: Seq<SqlV>| contradiction_row(row))
}

pub const INSERT_CONTRADICTION: &'static str = "INSERT OR IGNORE INTO contradictions (node_a, node_b, detected_at, resolved)
         VALUES (?1, ?2, ?3, 0)";

/// How a contradiction is stored.
pub open spec fn inserts_contradiction(
    before: Seq<Exchange>,
    after: Seq<Exchange>,
    node_a: Seq<char>,
    node_b: Seq<char>,
    now: i64,
    r: Read<()>,
) -> bool {
    &&& executed(
        before,
        after,
        statement(INSERT_CONTRADICTION@, seq![SqlV::Text(node_a), SqlV::Text(node_b), SqlV::Integer(now)]),
    )
    &&& r == completed(after.last().reply)
}

/// Stores that two nodes contradict each other, unless it is there.
pub fn insert_contradiction(conn: &mut Connection, node_a: &str, node_b: &str, now: i64) -> (r: Result<()>)
    ensures
        inserts_contradiction(history(*old(conn)), history(*final(conn)), node_a@, node_b@, now, done(r)),
{
    run(conn, INSERT_CONTRADICTION, params3(text(node_a), text(node_b), integer(now)))
}

pub const UNRESOLVED_HEAD: &'static str = "SELECT node_a, node_b, detected_at, resolved FROM contradictions
         WHERE resolved = 0 AND (node_a IN (";

/// The query for the unresolved contradictions of some nodes.
pub open spec fn unresolved_query(ids: Seq<Seq<char>>) -> StatementV {
    statement(
        UNRESOLVED_HEAD@ + placeholders(ids.len()) + ") OR node_b IN ("@ + placeholders(ids.len()) + "))"@,
        texts(ids),
    )
}

/// How the open contradictions of some nodes are looked up: no nodes, no question.
pub open spec fn gets_contradictions_among(
    before: Seq<Exchange>,
    after: Seq<Exchange>,
    ids: Seq<Seq<char>>,
    r: Read<Seq<ContradictionV>>,
) -> bool {
    if ids.len() == 0 {
        after == before && r == Read::<Seq<ContradictionV>>::Ok(Seq::empty())
    } else {
        queried(before, after, unresolved_query(ids)) && r == contradictions_of(after.last().reply)
    }
}

/// Finds the unresolved contradictions of some nodes. Nothing is asked where
/// there are none.
pub fn get_unresolved_contradictions(conn: &mut Connection, node_ids: &[NodeId]) -> (r: Result<Vec<ContradictionPair>>)
    ensures
        gets_contradictions_among(history(*old(conn)), history(*final(conn)), node_ids.deep_view(), outcome(r)),
{
    if node_ids.len() == 0 {
        let none: Vec<ContradictionPair> = Vec::new();
        assert(none.deep_view() =~= Seq::<ContradictionV>::empty());
        return Ok(none);
    }
    let list = placeholder_list(node_ids.len());
    let mut sql = join3(UNRESOLVED_HEAD, list.as_str(), ") OR node_b IN (");
    sql.append(list.as_str());
    sql.append("))");
    // both lists name the same parameters, so each ID is bound once
    fetch_all(
        conn,
        sql.as_str(),
        bind_ids(node_ids),
        row_to_contradiction,
        Ghost(|row: Seq<SqlV>| contradiction_row(row)),
    )
}

pub const GET_ALL_UNRESOLVED: &'static str = "SELECT node_a, node_b, detected_at, resolved FROM contradictions WHERE resolved = 0";

/// The contradictions that answer a query for unresolved ones.
pub open spec fn open_contradictions_of(reply: ReplyV) -> Read<Seq<ContradictionV>> {
    all_of(reply, |row: Seq<SqlV>| open_contradiction_row(row))
}

/// How all open contradictions are looked up.
pub open spec fn gets_open_contradictions(
    before: Seq<Exchange>,
    after: Seq<Exchange>,
    r: Read<Seq<ContradictionV>>,
) -> bool {
    &&& queried(before, after, statement(GET_ALL_UNRESOLVED@, Seq::<SqlV>::empty()))
    &&& r == open_contradictions_of(after.last().reply)
}

/// Loads every unresolved contradiction.
pub fn get_all_unresolved_contradictions(conn: &mut Connection) -> (r: Result<Vec<ContradictionPair>>)
    ensures
        gets_open_contradictions(history(*old(conn)), history(*final(conn)), outcome(r)),
{
    fetch_all(
        conn,
        GET_ALL_UNRESOLVED,
        no_params(),
        row_to_open_contradiction,
        Ghost(|row: Seq<SqlV>| open_contradiction_row(row)),
    )
}

pub const RESOLVE_CONTRADICTION: &'static str = "UPDATE contradictions SET resolved = 1 WHERE node_a = ?1 AND node_b = ?2";

/// How a contradiction is resolved.
pub open spec fn resolves_contradiction(
    before: Seq<Exchange>,
    after: Seq<Exchange>,
    node_a: Seq<char>,
    node_b: Seq<char>,
    r: Read<()>,
) -> bool {
    &&& executed(before, after, statement(RESOLVE_CONTRADICTION@, seq![SqlV::Text(node_a), SqlV::Text(node_b)]))
    &&& r == completed(after.last().reply)
}

/// Marks a contradiction as resolved.
pub fn resolve_contradiction(conn: &mut Connection, node_a: &str, node_b: &str) -> (r: Result<()>)
    ensures
        resolves_contradiction(history(*old(conn)), history(*final(conn)), node_a@, node_b@, done(r)),
{
    run(conn, RESOLVE_CONTRADICTION, params2(text(node_a), text(node_b)))
}

pub const GET_META: &'static str = "SELECT value FROM meta WHERE key = ?1";

/// The text that answers a query for one, if there is one.
pub open spec fn text_of_first(reply: ReplyV) -> Read<Option<Seq<char>>> {
    first_of(reply, |row: Seq<SqlV>| text_column(row, 0, "value"@))
}

/// How the value of a key is looked up.
pub open spec fn gets_meta(
    before: Seq<Exchange>,
    after: Seq<Exchange>,
    key: Seq<char>,
    r: Read<Option<Seq<char>>>,
) -> bool {
    &&& queried(before, after, statement(GET_META@, seq![SqlV::Text(key)]))
    &&& r == text_of_first(after.last().reply)
}

/// Reads the value of a key.
pub fn get_meta(conn: &mut Connection, key: &str) -> (r: Result<Option<String>>)
    ensures
        gets_meta(history(*old(conn)), history(*final(conn)), key@, outcome(r)),
{
    fetch_first(conn, GET_META, params1(text(key)), row_to_value, Ghost(|row: Seq<SqlV>| text_column(row, 0, "value"@)))
}

pub const SET_META: &'static str = "INSERT OR REPLACE INTO meta (key, value) VALUES (?1, ?2)";

/// How the value of a key is set.
pub open spec fn sets_meta(
    before: Seq<Exchange>,
    after: Seq<Exchange>,
    key: Seq<char>,
    value: Seq<char>,
    r: Read<()>,
) -> bool {
    &&& executed(before, after, statement(SET_META@, seq![SqlV::Text(key), SqlV::Text(value)]))
    &&& r == completed(after.last().reply)
}

/// Sets the value of a key.
pub fn set_meta(conn: &mut Connection, key: &str, value: &str) -> (r: Result<()>)
    ensures
        sets_meta(history(*old(conn)), history(*final(conn)), key@, value@, done(r)),
{
    run(conn, SET_META, params2(text(key), text(value)))
}

pub const NODE_COUNT: &'static str = "SELECT COUNT(*) FROM nodes";

/// How nodes are counted.
pub open spec fn counts_nodes(before: Seq<Exchange>, after: Seq<Exchange>, r: Read<i64>) -> bool {
    &&& queried(before, after, statement(NODE_COUNT@, Seq::<SqlV>::empty()))
    &&& r == count_of(after.last().reply)
}

/// Counts the nodes.
pub fn node_count(conn: &mut Connection) -> (r: Result<i64>)
    ensures
        counts_nodes(history(*old(conn)), history(*final(conn)), outcome(r)),
{
    fetch_count(conn, NODE_COUNT, no_params())
}

pub const EDGE_COUNT: &'static str = "SELECT COUNT(*) FROM edges";

/// How edges are counted.
pub open spec fn counts_edges(before: Seq<Exchange>, after: Seq<Exchange>, r: Read<i64>) -> bool {
    &&& queried(before, after, statement(EDGE_COUNT@, Seq::<SqlV>::empty()))
    &&& r == count_of(after.last().reply)
}

/// Counts the edges.
pub fn edge_count(conn: &mut Connection) -> (r: Result<i64>)
    ensures
        counts_edges(history(*old(conn)), history(*final(conn)), outcome(r)),
{
    fetch_count(conn, EDGE_COUNT, no_params())
}

pub const COUNT_BY_KIND: &'static str = "SELECT kind, COUNT(*) FROM nodes GROUP BY kind";

/// Counts by name: each name with the count that comes last for it.
pub open spec fn tally(counts: Seq<(Seq<char>, i64)>) -> Map<Seq<char>, i64>
    decreases counts.len(),
{
    if counts.len() == 0 {
        Map::empty()
    } else {
        tally(counts.drop_last()).insert(counts.last().0, counts.last().1)
    }
}

/// The counts that answer a query, by name.
pub open spec fn counts_of(reply: ReplyV) -> Read<Map<Seq<char>, i64>> {
    match all_of(reply, |row: Seq<SqlV>| named_count_row(row)) {
        Ok(counts) => Ok(tally(counts)),
        Err(f) => Err(f),
    }
}

/// No name comes twice.
pub open spec fn names_differ(counts: Seq<(Seq<char>, i64)>) -> bool {
    forall|i: int, j: int| 0 <= i < j < counts.len() ==> #[trigger] counts[i].0 != #[trigger] counts[j].0
}

/// A tally counts the names that it was made of, and no others.
pub proof fn lemma_tally_names(counts: Seq<(Seq<char>, i64)>, name: Seq<char>)
    ensures
        tally(counts).contains_key(name) <==> exists|i: int| 0 <= i < counts.len() && #[trigger] counts[i].0 == name,
    decreases counts.len(),
{
    if counts.len() > 0 {
        lemma_tally_names(counts.drop_last(), name);
        if tally(counts.drop_last()).contains_key(name) {
            let i = choose|i: int| 0 <= i < counts.drop_last().len() && #[trigger] counts.drop_last()[i].0 == name;
            assert(counts[i].0 == name);
        }
        assert(counts[counts.len() - 1].0 == counts.last().0);
        if exists|i: int| 0 <= i < counts.len() && #[trigger] counts[i].0 == name {
            let i = choose|i: int| 0 <= i < counts.len() && #[trigger] counts[i].0 == name;
            if i < counts.len() - 1 {
                assert(counts.drop_last()[i].0 == name);
            }
        }
    }
}

/// Where no name comes twice, a tally gives each name its count.
pub proof fn lemma_tally_at(counts: Seq<(Seq<char>, i64)>, at: int)
    requires
        names_differ(counts),
        0 <= at < counts.len(),
    ensures
        tally(counts).contains_key(counts[at].0),
        tally(counts)[counts[at].0] == counts[at].1,
    decreases counts.len(),
{
    if at < counts.len() - 1 {
        assert(counts.drop_last()[at] == counts[at]);
        lemma_tally_at(counts.drop_last(), at);
        assert(counts[at].0 != counts[counts.len() - 1].0);
    }
}

/// Where no name comes twice, setting a count sets it in the tally.
proof fn lemma_tally_update(counts: Seq<(Seq<char>, i64)>, at: int, count: i64)
    requires
        names_differ(counts),
        0 <= at < counts.len(),
    ensures
        tally(counts.update(at, (counts[at].0, count))) == tally(counts).insert(counts[at].0, count),
    decreases counts.len(),
{
    let updated = counts.update(at, (counts[at].0, count));
    if at == counts.len() - 1 {
        assert(updated.drop_last() =~= counts.drop_last());
        assert(tally(updated) =~= tally(counts).insert(counts[at].0, count));
    } else {
        let rest = counts.drop_last();
        assert(rest[at] == counts[at]);
        lemma_tally_update(rest, at, count);
        assert(updated.drop_last() =~= rest.update(at, (rest[at].0, count)));
        assert(counts[at].0 != counts[counts.len() - 1].0);
        assert(tally(updated) =~= tally(counts).insert(counts[at].0, count));
    }
}

/// Counts by name, each name once.
#[derive(Debug)]
pub struct KindCounts {
    entries: Vec<(String, i64)>,
}

impl View for KindCounts {
    type V = Map<Seq<char>, i64>;

    closed spec fn view(&self) -> Map<Seq<char>, i64> {
        tally(self.entries.deep_view())
    }
}

impl KindCounts {
    /// No name comes twice.
    pub closed spec fn wf(&self) -> bool {
        names_differ(self.entries.deep_view())
    }

    /// No counts.
    fn new() -> (r: KindCounts)
        ensures
            r.wf(),
            r@ == Map::<Seq<char>, i64>::empty(),
    {
        KindCounts { entries: Vec::new() }
    }

    /// The position of a name.
    fn find(&self, name: &str) -> (r: Option<usize>)
        ensures
            match r {
                Some(i) => i < self.entries.len() && self.entries[i as int].0@ == name@,
                None => !self@.contains_key(name@),
            },
    {
        let mut i: usize = 0;
        while i < self.entries.len()
            invariant
                i <= self.entries.len(),
                forall|j: int| 0 <= j < i ==> (#[trigger] self.entries.deep_view()[j]).0 != name@,
            decreases self.entries.len() - i,
        {
            if same(self.entries[i].0.as_str(), name) {
                return Some(i);
            }
            i = i + 1;
        }
        proof {
            lemma_tally_names(self.entries.deep_view(), name@);
        }
        None
    }

    /// Sets the count of a name.
    fn set(&mut self, name: &str, count: i64)
        requires
            old(self).wf(),
        ensures
            final(self).wf(),
            final(self)@ == old(self)@.insert(name@, count),
    {
        let ghost before = self.entries.deep_view();
        match self.find(name) {
            Some(i) => {
                self.entries.set(i, (name.to_owned(), count));
                proof {
                    lemma_tally_update(before, i as int, count);
                    assert(self.entries.deep_view() =~= before.update(i as int, (before[i as int].0, count)));
                }
            },
            None => {
                proof {
                    lemma_tally_names(before, name@);
                }
                self.entries.push((name.to_owned(), count));
                let ghost after = self.entries.deep_view();
                assert(after =~= before.push((name@, count)));
                assert(after.drop_last() =~= before);
                assert forall|i: int, j: int| 0 <= i < j < after.len() implies #[trigger] after[i].0 != #[trigger]
                    after[j].0 by {
                    assert(after[i] == before[i]);
                    if j < before.len() {
                        assert(after[j] == before[j]);
                    }
                }
            },
        }
    }

    /// The count of a name.
    pub fn get(&self, name: &str) -> (r: Option<&i64>)
        requires
            self.wf(),
        ensures
            match r {
                Some(n) => self@.contains_key(name@) && self@[name@] == *n,
                None => !self@.contains_key(name@),
            },
    {
        match self.find(name) {
            Some(i) => {
                proof {
                    lemma_tally_at(self.entries.deep_view(), i as int);
                }
                Some(&self.entries[i].1)
            },
            None => None,
        }
    }

    /// All names with their counts, each name once.
    pub fn entries(&self) -> (r: &Vec<(String, i64)>)
        requires
            self.wf(),
        ensures
            names_differ(r.deep_view()),
            tally(r.deep_view()) == self@,
    {
        &self.entries
    }
}

/// How nodes are counted by kind.
pub open spec fn counts_by_kind(before: Seq<Exchange>, after: Seq<Exchange>, r: Read<Map<Seq<char>, i64>>) -> bool {
    &&& queried(before, after, statement(COUNT_BY_KIND@, Seq::<SqlV>::empty()))
    &&& r == counts_of(after.last().reply)
}

/// Counts by kind, or why there are none.
pub open spec fn by_kind_of(r: Result<KindCounts>) -> Read<Map<Seq<char>, i64>> {
    match r {
        Ok(counts) => Ok(counts@),
        Err(e) => Err(e.deep_view()),
    }
}

/// Counts the nodes of each kind.
pub fn node_count_by_kind(conn: &mut Connection) -> (r: Result<KindCounts>)
    ensures
        counts_by_kind(history(*old(conn)), history(*final(conn)), by_kind_of(r)),
        r matches Ok(counts) ==> counts.wf(),
{
    let counts = fetch_all(
        conn,
        COUNT_BY_KIND,
        no_params(),
        row_to_named_count,
        Ghost(|row: Seq<SqlV>| named_count_row(row)),
    )?;
    let ghost all = counts.deep_view();
    let mut by_kind = KindCounts::new();
    let mut i: usize = 0;
    while i < counts.len()
        invariant
            i <= counts.len(),
            all == counts.deep_view(),
            by_kind.wf(),
            by_kind@ == tally(all.take(i as int)),
        decreases counts.len() - i,
    {
        assert(all.take(i + 1).drop_last() =~= all.take(i as int));
        by_kind.set(counts[i].0.as_str(), counts[i].1);
        i = i + 1;
    }
    assert(all.take(all.len() as int) =~= all);
    Ok(by_kind)
}

pub const COUNT_SUPPORTING: &'static str = "SELECT COUNT(*) FROM edges e
         JOIN nodes n ON e.src = n.id
         WHERE e.dst = ?1 AND e.kind = 'supports' AND n.trust_score > ?2";

/// How the support for a node is counted.
pub open spec fn counts_support(
    before: Seq<Exchange>,
    after: Seq<Exchange>,
    node_id: Seq<char>,
    min_trust: RealBits,
    r: Read<i64>,
) -> bool {
    &&& queried(before, after, statement(COUNT_SUPPORTING@, seq![SqlV::Text(node_id), SqlV::Real(min_trust)]))
    &&& r == count_of(after.last().reply)
}

/// Counts the edges that support a node and leave a node above a trust score.
pub fn count_supporting_edges(conn: &mut Connection, node_id: &str, min_trust: RealBits) -> (r: Result<i64>)
    ensures
        counts_support(history(*old(conn)), history(*final(conn)), node_id@, min_trust, outcome(r)),
{
    fetch_count(conn, COUNT_SUPPORTING, params2(text(node_id), number(min_trust)))
}

pub const COUNT_CONTRADICTIONS: &'static str = "SELECT COUNT(*) FROM contradictions
         WHERE resolved = 0 AND (node_a = ?1 OR node_b = ?1)";

/// How the contradictions of a node are counted.
pub open spec fn counts_doubts(before: Seq<Exchange>, after: Seq<Exchange>, node_id: Seq<char>, r: Read<i64>) -> bool {
    &&& queried(before, after, statement(COUNT_CONTRADICTIONS@, seq![SqlV::Text(node_id)]))
    &&& r == count_of(after.last().reply)
}

/// Counts the unresolved contradictions of a node.
pub fn count_contradictions(conn: &mut Connection, node_id: &str) -> (r: Result<i64>)
    ensures
        counts_doubts(history(*old(conn)), history(*final(conn)), node_id@, outcome(r)),
{
    fetch_count(conn, COUNT_CONTRADICTIONS, params1(text(node_id)))
}

}
