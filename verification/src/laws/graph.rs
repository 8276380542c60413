//! What the agent core and its sessions are for: who the agent is, what it remembers,
//! and whose session is whose.

use rusqlite::Connection;
use vstd::prelude::*;

use crate::cortex::{awakened, awakens, identifies, links, remembers, seeds_identity, Config, CortexEmbedded};
use crate::db::queries::routes;
use crate::db::rows::{law_node_reads_back, node_row, Read};
use crate::db::{continues, history, law_opened_is_ready, opens, since, Exchange, ReplyV, SqlV};
use crate::error::Result;
use crate::session::{counts, creation, lists, records_turn, resolves, SessionV};
use crate::store::graph::{has_soul, lemma_soul_is_looked_for};
use crate::store::sessions::law_one_session_for_each_user_and_channel;
use crate::store::wording::{SCHEMA, SESSION_TABLES};
use crate::store::{
    countable, does, lemma_runs_none, lemma_runs_one, lemma_runs_split, lemma_runs_two, runs, sessions_differ, StoreV,
};
use crate::types::{edge_kind_name, EdgeKind, EdgeSeed, NodeV, Scores};

verus! {

/// The row of the soul: the core identity of an agent, of full importance and trust,
/// which does not decay.
pub open spec fn soul_row(row: Seq<SqlV>, id: Seq<char>, now: i64) -> bool {
    &&& row.len() == 11
    &&& row[0] == SqlV::Text(id)
    &&& row[1] == SqlV::Text("soul"@)
    &&& row[2] == SqlV::Text("Core identity"@)
    &&& row[3] == SqlV::Text(
        "You are an agent with a persistent memory graph. Your identity, beliefs, goals, knowledge, and capabilities are stored as nodes in this graph — use your recall tool to look them up. Use your remember tool to store new things about yourself. You can update or delete any memory, including this soul node. The graph is you — shape it as you learn."@,
    )
    &&& row[4] == SqlV::Real(0x3ff0_0000_0000_0000)
    &&& row[5] == SqlV::Real(0x3ff0_0000_0000_0000)
    &&& row[6] == SqlV::Integer(0)
    &&& row[7] == SqlV::Integer(now)
    &&& row[8] is Null
    &&& row[9] == SqlV::Real(0)
    &&& row[10] is Null
}

/// An agent gets a soul if and only if it has none, and nothing else changes.
pub proof fn law_agent_without_a_soul_gets_one(
    store: StoreV,
    log: Seq<Exchange>,
    changed: StoreV,
    id: Seq<char>,
    now: i64,
)
    requires
        identifies(log, id, now, Ok(())),
        runs(store, log, changed),
    ensures
        (exists|row: Seq<SqlV>| #[trigger] store.nodes.contains_value(row) && row[1] == SqlV::Text("soul"@))
            ==> changed.nodes == store.nodes,
        (forall|row: Seq<SqlV>| #[trigger] store.nodes.contains_value(row) ==> row[1] != SqlV::Text("soul"@)) ==> {
            &&& changed.nodes.dom() == store.nodes.dom().insert(id)
            &&& forall|x: Seq<char>| store.nodes.contains_key(x) && x != id ==> #[trigger] changed.nodes[x] == store.nodes[x]
            &&& soul_row(changed.nodes[id], id, now)
        },
        changed.edges == store.edges,
        changed.sessions == store.sessions,
{
    let one = lemma_runs_split(store, log, changed, 1);
    lemma_runs_one(store, log.take(1), one);
    assert(log.take(1)[0] == log[0]);
    if log.len() > 1 {
        lemma_runs_one(one, log.skip(1), changed);
        assert(log.skip(1)[0] == log[1]);
    } else {
        lemma_runs_none(one, log.skip(1), changed);
    }
    lemma_soul_is_looked_for(store, log, id, now, Ok(()));
    if !has_soul(store) {
        assert(changed.nodes.dom() =~= store.nodes.dom().insert(id));
    }
}

/// The soul that is stored for an agent is stored as it should be.
pub proof fn law_soul_is_stored(
    before: Seq<Exchange>,
    after: Seq<Exchange>,
    id: Seq<char>,
    now: i64,
    store: StoreV,
    changed: StoreV,
)
    requires
        seeds_identity(before, after, id, now, Ok(())),
        does(store, after.last(), changed),
    ensures
        !store.nodes.contains_key(id),
        changed == (StoreV { nodes: store.nodes.insert(id, changed.nodes[id]), ..store }),
        soul_row(changed.nodes[id], id, now),
{
}

/// An agent that was started is configured as it was asked to be, on the database that was
/// opened, and has a soul there: the one that was there, or a new one. Where the database
/// could not be opened, there is no agent.
pub proof fn law_started_agent_has_a_soul(
    opened: Result<Connection>,
    config: Config,
    id: Seq<char>,
    now: i64,
    r: Result<CortexEmbedded>,
    store: StoreV,
    changed: StoreV,
)
    requires
        awakens(opened, config, id, now, r),
        opened is Ok && r is Ok ==> runs(
            store,
            since(history(opened->Ok_0), history(r->Ok_0.connection())),
            changed,
        ),
    ensures
        opened is Err ==> r == Result::<CortexEmbedded>::Err(opened->Err_0),
        opened is Ok && r is Ok ==> {
            &&& r->Ok_0.settings() == config
            &&& continues(history(opened->Ok_0), history(r->Ok_0.connection()))
            &&& exists|row: Seq<SqlV>| #[trigger] changed.nodes.contains_value(row) && row[1] == SqlV::Text("soul"@)
            &&& forall|x: Seq<char>| store.nodes.contains_key(x) && x != id ==> #[trigger] changed.nodes[x] == store.nodes[x]
        },
{
    if opened is Ok && r is Ok {
        let fresh = opened->Ok_0;
        let cortex = r->Ok_0;
        let log = since(history(fresh), history(cortex.connection()));
        let tried = choose|tried: Connection| #[trigger]
            awakened(fresh, tried, id, now, Ok(())) && cortex.connection() == tried && cortex.settings() == config;
        law_agent_without_a_soul_gets_one(store, log, changed, id, now);
        if exists|row: Seq<SqlV>| #[trigger] store.nodes.contains_value(row) && row[1] == SqlV::Text("soul"@) {
            let row = choose|row: Seq<SqlV>| #[trigger] store.nodes.contains_value(row) && row[1] == SqlV::Text("soul"@);
            assert(changed.nodes.contains_value(row));
        } else {
            assert(changed.nodes.contains_key(id));
            assert(changed.nodes.contains_value(changed.nodes[id]));
        }
    }
}

/// A node that is remembered is there with all that it says and with its embedding, and
/// its ID is told. Nothing else changes.
pub proof fn law_remembered_node_is_there(
    before: Seq<Exchange>,
    after: Seq<Exchange>,
    node: NodeV,
    embedding: Seq<u8>,
    id: Seq<char>,
    store: StoreV,
    changed: StoreV,
)
    requires
        remembers(before, after, node, embedding, Ok(id)),
        does(store, after.last(), changed),
        embedding.len() % 4 == 0,
    ensures
        id == node.id,
        !store.nodes.contains_key(id),
        changed == (StoreV { nodes: store.nodes.insert(id, changed.nodes[id]), ..store }),
        node_row(changed.nodes[id]) is Ok,
        ({
            let kept = node_row(changed.nodes[id])->Ok_0;
            &&& kept.id == node.id
            &&& kept.kind == node.kind
            &&& kept.title == node.title
            &&& kept.body == node.body
            &&& kept.importance == node.importance
            &&& kept.trust_score == node.trust_score
            &&& kept.access_count == node.access_count
            &&& kept.created_at == node.created_at
            &&& kept.last_access == node.last_access
            &&& kept.decay_rate == node.decay_rate
            &&& kept.embedding == Some(embedding)
        }),
{
    law_node_reads_back(NodeV { embedding: Some(embedding), ..node });
}

/// Two nodes that are linked are tied by one edge of the kind from the first to the
/// second, where its ID is new, and its ID is told. Nothing else changes.
pub proof fn law_linked_nodes_are_tied(
    before: Seq<Exchange>,
    after: Seq<Exchange>,
    src: Seq<char>,
    dst: Seq<char>,
    kind: EdgeKind,
    seed: EdgeSeed,
    id: Seq<char>,
    store: StoreV,
    changed: StoreV,
)
    requires
        links(before, after, src, dst, kind, seed, Ok(id)),
        does(store, after.last(), changed),
    ensures
        id == seed.id@,
        after.last().reply == ReplyV::Changed(Ok(0)) ==> changed == store,
        after.last().reply != ReplyV::Changed(Ok(0)) ==> changed == (StoreV {
            edges: store.edges.insert(
                seq![
                    SqlV::Text(id),
                    SqlV::Text(src),
                    SqlV::Text(dst),
                    SqlV::Text(edge_kind_name(kind)),
                    SqlV::Real(seed.weight),
                    SqlV::Integer(seed.now),
                    SqlV::Null,
                ],
            ),
            ..store
        }),
{
}

/// A database that was opened has the tables of the graph, whatever it was opened on, and
/// was asked nothing else.
pub proof fn law_opened_database_has_its_tables(path: Option<Seq<char>>, r: Result<Connection>)
    requires
        opens(path, r),
        r is Ok,
    ensures
        history(r->Ok_0).len() == 2,
        history(r->Ok_0)[0].reply == ReplyV::Opened(path),
        history(r->Ok_0)[1].statement.sql == SCHEMA@,
        history(r->Ok_0)[1].reply matches ReplyV::Done(Ok(_)),
{
    law_opened_is_ready(path, r);
}

/// Whatever is asked about sessions, their table is created first, unless it is there.
pub proof fn law_sessions_have_their_table(
    log: Seq<Exchange>,
    user: Seq<char>,
    channel: Seq<char>,
    id: Seq<char>,
    now: i64,
    scores: Scores,
    resolved: Read<SessionV>,
    listed: Read<Seq<SessionV>>,
    counted: Read<(i64, i64)>,
    routed: Read<Option<(Seq<char>, Seq<char>)>>,
)
    requires
        resolves(log, user, channel, id, now, scores, resolved) || lists(log, user, listed) || counts(log, counted)
            || routes(log, id, routed),
    ensures
        log.len() > 0,
        log[0].statement.sql == SESSION_TABLES@,
        log[0].statement.params.len() == 0,
        log[0].reply is Done,
{
}

/// A user without a session on a channel gets one: a new node of that kind, named after
/// the channel and the user, under the ID of the session, at the time, with the scores
/// and without a body. The session has no turns. A user with a session on the channel
/// gets that one, and no node is stored. Edges stay as they are.
pub proof fn law_session_has_a_node(
    store: StoreV,
    log: Seq<Exchange>,
    changed: StoreV,
    user: Seq<char>,
    channel: Seq<char>,
    id: Seq<char>,
    now: i64,
    scores: Scores,
    session: SessionV,
)
    requires
        sessions_differ(store.sessions),
        resolves(log, user, channel, id, now, scores, Ok(session)),
        runs(store, log, changed),
    ensures
        changed.edges == store.edges,
        (exists|i: int|
            0 <= i < store.sessions.len() && (#[trigger] store.sessions[i]).user_id == user && store.sessions[i].channel
                == channel) ==> changed.nodes == store.nodes && exists|i: int|
            0 <= i < store.sessions.len() && session.node_id == (#[trigger] store.sessions[i]).node_id && session.turn_count
                == store.sessions[i].turn_count && session.created_at == store.sessions[i].created_at,
        (forall|i: int|
            0 <= i < store.sessions.len() ==> !((#[trigger] store.sessions[i]).user_id == user
                && store.sessions[i].channel == channel)) ==> {
            &&& session.node_id == id
            &&& session.turn_count == 0
            &&& session.created_at == now
            &&& changed.nodes == store.nodes.insert(
                id,
                seq![
                    SqlV::Text(id),
                    SqlV::Text("session"@),
                    SqlV::Text(channel + " session for "@ + user),
                    SqlV::Null,
                    SqlV::Real(scores.importance),
                    SqlV::Real(scores.trust_score),
                    SqlV::Integer(0),
                    SqlV::Integer(now),
                    SqlV::Null,
                    SqlV::Real(scores.decay_rate),
                    SqlV::Null,
                ],
            )
        },
        session.user_id == user,
        session.channel == channel,
        session.last_active == now,
{
    law_one_session_for_each_user_and_channel(store, log, changed, user, channel, id, now, scores, session);
    let one = lemma_runs_split(store, log, changed, 1);
    lemma_runs_one(store, log.take(1), one);
    assert(log.take(1)[0] == log[0]);
    let rest = log.skip(1);
    let two = lemma_runs_split(one, rest, changed, 1);
    lemma_runs_one(one, rest.take(1), two);
    assert(rest.take(1)[0] == log[1]);
    let later = rest.skip(1);
    assert(later =~= log.skip(2));
    if later.len() == 1 {
        lemma_runs_one(two, later, changed);
        assert(later[0] == log[2]);
    } else {
        let statements = creation(id, user, channel, now, scores);
        let three = lemma_runs_two(two, later, changed);
        assert(later[0].statement == statements[0]);
        assert(later[1].statement == statements[1]);
    }
    if exists|i: int|
        0 <= i < store.sessions.len() && (#[trigger] store.sessions[i]).user_id == user && store.sessions[i].channel
            == channel {
        let i = choose|i: int|
            0 <= i < store.sessions.len() && (#[trigger] store.sessions[i]).user_id == user && store.sessions[i].channel
                == channel;
        assert(session == (SessionV { last_active: now, ..store.sessions[i] }));
    }
}

/// A turn that is recorded counts for the session with the ID, which was then last active;
/// every other session stays as it was, and nothing else changes.
pub proof fn law_turn_counts_for_its_session(
    before: Seq<Exchange>,
    after: Seq<Exchange>,
    id: Seq<char>,
    now: i64,
    store: StoreV,
    changed: StoreV,
)
    requires
        records_turn(before, after, id, now, Ok(())),
        does(store, after.last(), changed),
        countable(store.sessions, id),
    ensures
        changed == (StoreV { sessions: changed.sessions, ..store }),
        changed.sessions.len() == store.sessions.len(),
        forall|i: int|
            0 <= i < store.sessions.len() ==> {
                let was = store.sessions[i];
                #[trigger] changed.sessions[i] == if was.node_id == id {
                    SessionV { turn_count: (was.turn_count + 1) as i64, last_active: now, ..was }
                } else {
                    was
                }
            },
{
}

}
