//! Sessions: one for each user on each channel.
//!
//! The same user has a session of their own on every channel. A session is a
//! node of the graph, and a row of a lookup table by user and channel.

use rusqlite::Connection;
use vstd::prelude::*;
use vstd::string::*;

use crate::db::params::{integer, no_params, node_cells, params1, params2, params5, text};
use crate::db::queries::{insert_node, INSERT_NODE};
use crate::db::rows::{
    all_of, count_of, fetch_all, fetch_count, fetch_first, fetch_number, first_of, integer_column, number_of,
    read_integer, read_text, text_column, Read,
};
use crate::db::{
    completed, continues, executed, history, lemma_ran_step, lemma_since_step, ran, run, script, scripted, since,
    statement, went_through, Exchange, ReplyV, Row, RowV, SqlV, StatementV,
};
use crate::error::{done, outcome, Result};
use crate::types::{new_node, Node, NodeId, NodeKind, NodeSeed, NodeV, Scores};

verus! {

/// A session.
#[derive(Debug)]
pub struct ManagedSession {
    /// The ID of the session's node in the graph.
    pub node_id: NodeId,
    /// The user.
    pub user_id: String,
    /// The channel.
    pub channel: String,
    /// When the session was created, in seconds since 1970.
    pub created_at: i64,
    /// How many turns were processed in the session.
    pub turn_count: i64,
    /// When the session was last active, in seconds since 1970.
    pub last_active: i64,
}

/// What a session says.
pub struct SessionV {
    pub node_id: Seq<char>,
    pub user_id: Seq<char>,
    pub channel: Seq<char>,
    pub created_at: i64,
    pub turn_count: i64,
    pub last_active: i64,
}

impl DeepView for ManagedSession {
    type V = SessionV;

    open spec fn deep_view(&self) -> SessionV {
        SessionV {
            node_id: self.node_id@,
            user_id: self.user_id@,
            channel: self.channel@,
            created_at: self.created_at,
            turn_count: self.turn_count,
            last_active: self.last_active,
        }
    }
}

/// A session, from the six columns of a row.
pub open spec fn session_row(row: Seq<SqlV>) -> Read<SessionV> {
    match text_column(row, 0, "node_id"@) {
        Err(f) => Err(f),
        Ok(node_id) => match text_column(row, 1, "user_id"@) {
            Err(f) => Err(f),
            Ok(user_id) => match text_column(row, 2, "channel"@) {
                Err(f) => Err(f),
                Ok(channel) => match integer_column(row, 3, "created_at"@) {
                    Err(f) => Err(f),
                    Ok(created_at) => match integer_column(row, 4, "turn_count"@) {
                        Err(f) => Err(f),
                        Ok(turn_count) => match integer_column(row, 5, "last_active"@) {
                            Err(f) => Err(f),
                            Ok(last_active) => Ok(
                                SessionV { node_id, user_id, channel, created_at, turn_count, last_active },
                            ),
                        },
                    },
                },
            },
        },
    }
}

/// Reads a session.
fn row_to_session(row: &Row) -> (r: Result<ManagedSession>)
    ensures
        outcome(r) == session_row(row.deep_view()),
{
    Ok(
        ManagedSession {
            node_id: read_text(row, 0, "node_id")?,
            user_id: read_text(row, 1, "user_id")?,
            channel: read_text(row, 2, "channel")?,
            created_at: read_integer(row, 3, "created_at")?,
            turn_count: read_integer(row, 4, "turn_count")?,
            last_active: read_integer(row, 5, "last_active")?,
        },
    )
}

pub const SESSION_TABLES: &'static str = "CREATE TABLE IF NOT EXISTS managed_sessions (
            node_id     TEXT PRIMARY KEY,
            user_id     TEXT NOT NULL,
            channel     TEXT NOT NULL,
            created_at  INTEGER NOT NULL,
            turn_count  INTEGER NOT NULL DEFAULT 0,
            last_active INTEGER NOT NULL,
            UNIQUE(user_id, channel)
        );

        CREATE INDEX IF NOT EXISTS idx_managed_sessions_user
            ON managed_sessions(user_id);";

/// Creates the lookup table, unless it is there.
pub fn create_tables(conn: &mut Connection) -> (r: Result<()>)
    ensures
        scripted(history(*old(conn)), history(*final(conn)), SESSION_TABLES@),
        done(r) == completed(history(*final(conn)).last().reply),
{
    script(conn, SESSION_TABLES)
}

/// The log starts with the creation of the lookup table, whether it went through
/// or not.
pub open spec fn tables_first(log: Seq<Exchange>) -> bool {
    &&& log.len() > 0
    &&& log[0].statement == statement(SESSION_TABLES@, Seq::empty())
    &&& log[0].reply is Done
}

pub const FIND_SESSION: &'static str = "SELECT node_id, user_id, channel, created_at, turn_count, last_active
                 FROM managed_sessions
                 WHERE user_id = ?1 AND channel = ?2";

pub const BUMP_SESSION: &'static str = "UPDATE managed_sessions SET last_active = ?1 WHERE node_id = ?2";

pub const INSERT_SESSION: &'static str =
    "INSERT INTO managed_sessions (node_id, user_id, channel, created_at, turn_count, last_active)
             VALUES (?1, ?2, ?3, ?4, 0, ?5)";

/// The lookup of the session of a user on a channel.
pub open spec fn find_session(user: Seq<char>, channel: Seq<char>) -> StatementV {
    statement(FIND_SESSION@, seq![SqlV::Text(user), SqlV::Text(channel)])
}

/// The node of a new session.
pub open spec fn session_node(id: Seq<char>, user: Seq<char>, channel: Seq<char>, now: i64, scores: Scores) -> NodeV {
    new_node(id, NodeKind::Session, channel + " session for "@ + user, now, scores)
}

/// A session that was just created.
pub open spec fn new_session(id: Seq<char>, user: Seq<char>, channel: Seq<char>, now: i64) -> SessionV {
    SessionV { node_id: id, user_id: user, channel, created_at: now, turn_count: 0, last_active: now }
}

/// The statements that create a session: its node, then its row.
pub open spec fn creation(id: Seq<char>, user: Seq<char>, channel: Seq<char>, now: i64, scores: Scores) -> Seq<
    StatementV,
> {
    seq![
        statement(INSERT_NODE@, node_cells(session_node(id, user, channel, now, scores))),
        statement(
            INSERT_SESSION@,
            seq![
                SqlV::Text(id),
                SqlV::Text(user),
                SqlV::Text(channel),
                SqlV::Integer(now),
                SqlV::Integer(now),
            ],
        ),
    ]
}

/// How the session of a user on a channel is found or created: the lookup table
/// is there first; a session that is found was active now; where none is found
/// one is created.
pub open spec fn resolves(
    log: Seq<Exchange>,
    user: Seq<char>,
    channel: Seq<char>,
    id: Seq<char>,
    now: i64,
    scores: Scores,
    r: Read<SessionV>,
) -> bool {
    &&& tables_first(log)
    &&& match completed(log[0].reply) {
        Err(f) => log.len() == 1 && r == Read::<SessionV>::Err(f),
        Ok(_) => {
            &&& log.len() > 1
            &&& log[1].statement == find_session(user, channel)
            &&& log[1].reply is Rows
            &&& match first_of(log[1].reply, |row: Seq<SqlV>| session_row(row)) {
                Err(f) => log.len() == 2 && r == Read::<SessionV>::Err(f),
                Ok(Some(found)) => {
                    &&& log.len() == 3
                    &&& log[2].statement == statement(
                        BUMP_SESSION@,
                        seq![SqlV::Integer(now), SqlV::Text(found.node_id)],
                    )
                    &&& log[2].reply is Changed
                    &&& match completed(log[2].reply) {
                        Err(f) => r == Read::<SessionV>::Err(f),
                        Ok(_) => r == Read::<SessionV>::Ok(SessionV { last_active: now, ..found }),
                    }
                },
                Ok(None) => match r {
                    Ok(session) => {
                        &&& ran(log.skip(2), creation(id, user, channel, now, scores), Ok(()))
                        &&& session == new_session(id, user, channel, now)
                    },
                    Err(f) => ran(log.skip(2), creation(id, user, channel, now, scores), Err(f)),
                },
            }
        },
    }
}

/// Finds the session of a user on a channel, or creates it.
pub fn get_or_create(conn: &mut Connection, user_id: &str, channel: &str, seed: NodeSeed) -> (r: Result<
    ManagedSession,
>)
    ensures
        continues(history(*old(conn)), history(*final(conn))),
        resolves(
            since(history(*old(conn)), history(*final(conn))),
            user_id@,
            channel@,
            seed.id@,
            seed.now,
            seed.scores,
            outcome(r),
        ),
{
    let ghost start = history(*conn);
    assert(since(start, start) =~= Seq::<Exchange>::empty());
    let tables = create_tables(conn);
    let ghost one = history(*conn);
    proof {
        lemma_since_step(start, start, one);
    }
    if let Err(e) = tables {
        return Err(e);
    }
    let now: i64 = seed.now;
    let existing = fetch_first(
        conn,
        FIND_SESSION,
        params2(text(user_id), text(channel)),
        row_to_session,
        Ghost(|row: Seq<SqlV>| session_row(row)),
    );
    let ghost two = history(*conn);
    proof {
        lemma_since_step(start, one, two);
    }
    if let Some(session) = existing? {
        let bumped = run(conn, BUMP_SESSION, params2(integer(now), text(session.node_id.as_str())));
        proof {
            lemma_since_step(start, two, history(*conn));
        }
        if let Err(e) = bumped {
            return Err(e);
        }
        let mut session = session;
        session.last_active = now;
        return Ok(session);
    }
    let ghost statements = creation(seed.id@, user_id@, channel@, now, seed.scores);
    let ghost none = since(start, two).skip(2);
    assert(none =~= Seq::<Exchange>::empty());
    assert(went_through(none, statements.take(0)));
    let node_id = seed.id.clone();
    let mut title = channel.to_owned();
    title.append(" session for ");
    title.append(user_id);
    let node = Node::session(title.as_str(), seed);
    let inserted = insert_node(conn, &node);
    let ghost three = history(*conn);
    proof {
        lemma_since_step(start, two, three);
        lemma_ran_step(none, statements, three.last());
        assert(since(start, three).skip(2) =~= none.push(three.last()));
    }
    if let Err(e) = inserted {
        return Err(e);
    }
    let listed = run(
        conn,
        INSERT_SESSION,
        params5(text(node_id.as_str()), text(user_id), text(channel), integer(now), integer(now)),
    );
    proof {
        lemma_since_step(start, three, history(*conn));
        lemma_ran_step(none.push(three.last()), statements, history(*conn).last());
        assert(since(start, history(*conn)).skip(2) =~= none.push(three.last()).push(history(*conn).last()));
        assert(statements.take(2) =~= statements);
    }
    if let Err(e) = listed {
        return Err(e);
    }
    Ok(
        ManagedSession {
            node_id,
            user_id: user_id.to_owned(),
            channel: channel.to_owned(),
            created_at: now,
            turn_count: 0,
            last_active: now,
        },
    )
}

pub const RECORD_TURN: &'static str =
    "UPDATE managed_sessions SET turn_count = turn_count + 1, last_active = ?1 WHERE node_id = ?2";

/// How a turn of a session is recorded.
pub open spec fn records_turn(before: Seq<Exchange>, after: Seq<Exchange>, id: Seq<char>, now: i64, r: Read<()>) -> bool {
    &&& executed(before, after, statement(RECORD_TURN@, seq![SqlV::Integer(now), SqlV::Text(id)]))
    &&& r == completed(after.last().reply)
}

/// Counts a turn of a session.
pub fn record_turn(conn: &mut Connection, session_node_id: &str, now: i64) -> (r: Result<()>)
    ensures
        records_turn(history(*old(conn)), history(*final(conn)), session_node_id@, now, done(r)),
{
    run(conn, RECORD_TURN, params2(integer(now), text(session_node_id)))
}

pub const LIST_SESSIONS: &'static str = "SELECT node_id, user_id, channel, created_at, turn_count, last_active
             FROM managed_sessions
             WHERE user_id = ?1
             ORDER BY last_active DESC";

/// How the sessions of a user are listed.
pub open spec fn lists(log: Seq<Exchange>, user: Seq<char>, r: Read<Seq<SessionV>>) -> bool {
    &&& tables_first(log)
    &&& match completed(log[0].reply) {
        Err(f) => log.len() == 1 && r == Read::<Seq<SessionV>>::Err(f),
        Ok(_) => {
            &&& log.len() == 2
            &&& log[1].statement == statement(LIST_SESSIONS@, seq![SqlV::Text(user)])
            &&& log[1].reply is Rows
            &&& r == all_of(log[1].reply, |row: Seq<SqlV>| session_row(row))
        },
    }
}

/// Lists the sessions of a user, the one that was active last first.
pub fn list_user_sessions(conn: &mut Connection, user_id: &str) -> (r: Result<Vec<ManagedSession>>)
    ensures
        continues(history(*old(conn)), history(*final(conn))),
        lists(since(history(*old(conn)), history(*final(conn))), user_id@, outcome(r)),
{
    let ghost start = history(*conn);
    assert(since(start, start) =~= Seq::<Exchange>::empty());
    let tables = create_tables(conn);
    let ghost one = history(*conn);
    proof {
        lemma_since_step(start, start, one);
    }
    if let Err(e) = tables {
        return Err(e);
    }
    let sessions = fetch_all(
        conn,
        LIST_SESSIONS,
        params1(text(user_id)),
        row_to_session,
        Ghost(|row: Seq<SqlV>| session_row(row)),
    );
    proof {
        lemma_since_step(start, one, history(*conn));
    }
    sessions
}

pub const COUNT_SESSIONS: &'static str = "SELECT COUNT(*) FROM managed_sessions";

pub const COUNT_TURNS: &'static str = "SELECT COALESCE(SUM(turn_count), 0) FROM managed_sessions";

/// The name of the column with the turns of all sessions.
pub const TURNS_COLUMN: &'static str = "COALESCE(SUM(turn_count), 0)";

/// Reads the turns of all sessions.
fn row_to_turns(row: &Row) -> (r: Result<i64>)
    ensures
        outcome(r) == integer_column(row.deep_view(), 0, TURNS_COLUMN@),
{
    read_integer(row, 0, TURNS_COLUMN)
}

/// How sessions and turns are counted.
pub open spec fn counts(log: Seq<Exchange>, r: Read<(i64, i64)>) -> bool {
    &&& tables_first(log)
    &&& match completed(log[0].reply) {
        Err(f) => log.len() == 1 && r == Read::<(i64, i64)>::Err(f),
        Ok(_) => {
            &&& log.len() > 1
            &&& log[1].statement == statement(COUNT_SESSIONS@, Seq::empty())
            &&& log[1].reply is Rows
            &&& match count_of(log[1].reply) {
                Err(f) => log.len() == 2 && r == Read::<(i64, i64)>::Err(f),
                Ok(sessions) => {
                    &&& log.len() == 3
                    &&& log[2].statement == statement(COUNT_TURNS@, Seq::empty())
                    &&& log[2].reply is Rows
                    &&& match number_of(log[2].reply, TURNS_COLUMN@) {
                        Err(f) => r == Read::<(i64, i64)>::Err(f),
                        Ok(turns) => r == Read::<(i64, i64)>::Ok((sessions, turns)),
                    }
                },
            }
        },
    }
}

/// Counts all sessions and all turns.
pub fn stats(conn: &mut Connection) -> (r: Result<(i64, i64)>)
    ensures
        continues(history(*old(conn)), history(*final(conn))),
        counts(since(history(*old(conn)), history(*final(conn))), outcome(r)),
{
    let ghost start = history(*conn);
    assert(since(start, start) =~= Seq::<Exchange>::empty());
    let tables = create_tables(conn);
    let ghost one = history(*conn);
    proof {
        lemma_since_step(start, start, one);
    }
    if let Err(e) = tables {
        return Err(e);
    }
    let sessions = fetch_count(conn, COUNT_SESSIONS, no_params());
    let ghost two = history(*conn);
    proof {
        lemma_since_step(start, one, two);
    }
    let sessions: i64 = sessions?;
    let turns = fetch_number(conn, COUNT_TURNS, row_to_turns, no_params(), Ghost(TURNS_COLUMN@));
    proof {
        lemma_since_step(start, two, history(*conn));
    }
    let turns: i64 = turns?;
    Ok((sessions, turns))
}

/// The row of a session.
pub open spec fn session_cells(session: SessionV) -> Seq<SqlV> {
    seq![
        SqlV::Text(session.node_id),
        SqlV::Text(session.user_id),
        SqlV::Text(session.channel),
        SqlV::Integer(session.created_at),
        SqlV::Integer(session.turn_count),
        SqlV::Integer(session.last_active),
    ]
}

/// A session reads back from its row.
pub proof fn law_session_reads_back(session: SessionV)
    ensures
        session_row(session_cells(session)) == Read::<SessionV>::Ok(session),
{
}

/// A session that is in the lookup table is resumed: the call gives the same
/// session, active now, and creates nothing.
pub proof fn law_session_resumes(
    log: Seq<Exchange>,
    session: SessionV,
    id: Seq<char>,
    now: i64,
    scores: Scores,
    r: Read<SessionV>,
)
    requires
        resolves(log, session.user_id, session.channel, id, now, scores, r),
        r is Ok,
        log[1].reply matches ReplyV::Rows(Ok(rows)) && rows == seq![
            RowV::Ok(session_cells(session)),
        ],
    ensures
        r == Read::<SessionV>::Ok(SessionV { last_active: now, ..session }),
        log.len() == 3,
        log[2].statement == statement(BUMP_SESSION@, seq![SqlV::Integer(now), SqlV::Text(session.node_id)]),
{
    law_session_reads_back(session);
}

/// Users and channels are told apart: the lookups of two sessions are the same
/// only where the user and the channel are.
pub proof fn law_sessions_are_told_apart(user: Seq<char>, channel: Seq<char>, user2: Seq<char>, channel2: Seq<char>)
    requires
        find_session(user, channel) == find_session(user2, channel2),
    ensures
        user == user2,
        channel == channel2,
{
    let a = find_session(user, channel).params;
    let b = find_session(user2, channel2).params;
    assert(a[0] == b[0]);
    assert(a[1] == b[1]);
}

}
