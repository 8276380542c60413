//! What holds of sessions in a store that keeps to its statements.

use vstd::prelude::*;

use super::{
    answers, countable, counts_to, lemma_answers_read, lemma_runs_none, lemma_runs_one, lemma_runs_split,
    lemma_runs_two, runs, session_line, sessions_cells, sessions_differ, told_apart, turned, turns_of, where_id, StoreV,
};
use crate::db::queries::routes;
use crate::db::rows::Read;
use crate::db::{statement, went_through, Exchange, ReplyV, SqlV};
use crate::session::{
    counts, creation, law_session_reads_back, lists, new_session, resolves, session_row, SessionV, RECORD_TURN,
};
use crate::types::Scores;

verus! {

/// Replacing the session with an ID by one of the same ID, user and channel keeps
/// sessions apart.
proof fn lemma_where_id(sessions: Seq<SessionV>, id: Seq<char>, change: spec_fn(SessionV) -> SessionV)
    requires
        sessions_differ(sessions),
        forall|s: SessionV| {
            &&& (#[trigger] change(s)).node_id == s.node_id
            &&& change(s).user_id == s.user_id
            &&& change(s).channel == s.channel
        },
    ensures
        sessions_differ(where_id(sessions, id, change)),
        where_id(sessions, id, change).len() == sessions.len(),
{
    let all = where_id(sessions, id, change);
    assert forall|i: int, j: int| 0 <= i < j < all.len() implies told_apart(#[trigger] all[i], #[trigger] all[j]) by {
        assert(told_apart(sessions[i], sessions[j]));
    }
}

/// There is one session for each user on each channel: where there is one already
/// it is resumed, active now, and no other is created; otherwise a new one joins
/// the others.
pub proof fn law_one_session_for_each_user_and_channel(
    before: StoreV,
    log: Seq<Exchange>,
    after: StoreV,
    user: Seq<char>,
    channel: Seq<char>,
    id: Seq<char>,
    now: i64,
    scores: Scores,
    session: SessionV,
)
    requires
        sessions_differ(before.sessions),
        resolves(log, user, channel, id, now, scores, Ok(session)),
        runs(before, log, after),
    ensures
        session.user_id == user,
        session.channel == channel,
        session.last_active == now,
        sessions_differ(after.sessions),
        after.sessions.contains(session),
        forall|i: int|
            0 <= i < before.sessions.len() && (#[trigger] before.sessions[i]).user_id == user
                && before.sessions[i].channel == channel ==> {
                &&& session == SessionV { last_active: now, ..before.sessions[i] }
                &&& after.sessions == before.sessions.update(i, session)
                &&& after.nodes == before.nodes
            },
        (forall|i: int|
            0 <= i < before.sessions.len() ==> !((#[trigger] before.sessions[i]).user_id == user
                && before.sessions[i].channel == channel)) ==> {
            &&& session == new_session(id, user, channel, now)
            &&& after.sessions == before.sessions.push(session)
        },
{
    let one = lemma_runs_split(before, log, after, 1);
    lemma_runs_one(before, log.take(1), one);
    assert(log.take(1)[0] == log[0]);
    assert(one == before);
    let rest = log.skip(1);
    let two = lemma_runs_split(before, rest, after, 1);
    lemma_runs_one(before, rest.take(1), two);
    assert(rest.take(1)[0] == log[1]);
    assert(two == before);
    let last = rest.skip(1);
    assert(last =~= log.skip(2));
    let all = before.sessions;
    let among = |row: Seq<SqlV>|
        exists|i: int|
            0 <= i < all.len() && row == session_line(#[trigger] all[i]) && all[i].user_id == user && all[i].channel
                == channel;
    let rows = choose|rows: Seq<Seq<SqlV>>| #[trigger]
        answers(log[1].reply, rows) && rows.no_duplicates() && forall|row: Seq<SqlV>| #[trigger]
            rows.contains(row) <==> among(row);
    if rows.len() == 0 {
        assert forall|i: int| 0 <= i < all.len() implies !((#[trigger] all[i]).user_id == user && all[i].channel
            == channel) by {
            if all[i].user_id == user && all[i].channel == channel {
                assert(among(session_line(all[i])));
                assert(rows.contains(session_line(all[i])));
            }
        }
        let statements = creation(id, user, channel, now, scores);
        assert(went_through(last, statements));
        let three = lemma_runs_two(before, last, after);
        assert(last[0].statement == statements[0]);
        assert(last[1].statement == statements[1]);
        assert(three.sessions == all);
        assert(after.sessions == all.push(session));
        assert(after.sessions[all.len() as int] == session);
    } else {
        assert(rows.contains(rows[0]));
        let at = choose|i: int|
            0 <= i < all.len() && rows[0] == session_line(#[trigger] all[i]) && all[i].user_id == user
                && all[i].channel == channel;
        law_session_reads_back(all[at]);
        let found = all[at];
        lemma_runs_one(before, last, after);
        assert(last[0] == log[2]);
        let change = |s: SessionV| SessionV { last_active: now, ..s };
        lemma_where_id(all, found.node_id, change);
        assert(after.sessions == where_id(all, found.node_id, change));
        assert forall|i: int| 0 <= i < all.len() && i != at implies (#[trigger] all[i]).node_id != found.node_id && !(
        all[i].user_id == user && all[i].channel == channel) by {
            if i < at {
                assert(told_apart(all[i], all[at]));
            } else {
                assert(told_apart(all[at], all[i]));
            }
        }
        assert(after.sessions[at] == session);
        assert(after.sessions =~= all.update(at, session));
    }
}

/// Turns that were recorded are counted, and the last of them is when the session
/// was last active. Nothing else of any session changes.
proof fn lemma_turns_are_counted(before: StoreV, turns: Seq<Exchange>, times: Seq<i64>, after: StoreV, at: int)
    requires
        sessions_differ(before.sessions),
        0 <= at < before.sessions.len(),
        turns.len() == times.len(),
        before.sessions[at].turn_count + turns.len() <= i64::MAX,
        records_turns(turns, times, before.sessions[at].node_id),
        runs(before, turns, after),
    ensures
        sessions_differ(after.sessions),
        after.nodes == before.nodes,
        after.sessions == before.sessions.update(at, after.sessions[at]),
        after.sessions[at] == (SessionV {
            turn_count: (before.sessions[at].turn_count + turns.len()) as i64,
            last_active: if turns.len() == 0 {
                before.sessions[at].last_active
            } else {
                times.last()
            },
            ..before.sessions[at]
        }),
    decreases turns.len(),
{
    if turns.len() == 0 {
        lemma_runs_none(before, turns, after);
        assert(after.sessions =~= before.sessions.update(at, after.sessions[at]));
    } else {
        let k = turns.len() - 1;
        let middle = lemma_runs_split(before, turns, after, k);
        let head = turns.take(k);
        let id = before.sessions[at].node_id;
        assert forall|i: int| 0 <= i < head.len() implies {
            &&& (#[trigger] head[i]).statement == statement(
                RECORD_TURN@,
                seq![SqlV::Integer(times.take(k)[i]), SqlV::Text(id)],
            )
            &&& head[i].reply matches ReplyV::Changed(Ok(_))
        } by {
            assert(head[i] == turns[i]);
        }
        lemma_turns_are_counted(before, head, times.take(k), middle, at);
        let had = middle.sessions;
        lemma_runs_one(middle, turns.skip(k), after);
        assert(turns.skip(k)[0] == turns[k]);
        assert forall|i: int| 0 <= i < had.len() && i != at implies (#[trigger] had[i]).node_id != id by {
            if i < at {
                assert(told_apart(had[i], had[at]));
            } else {
                assert(told_apart(had[at], had[i]));
            }
        }
        assert(countable(had, id));
        let change = |s: SessionV| turned(s, times[k]);
        assert(after.sessions == where_id(had, id, change));
        lemma_where_id(had, id, change);
        assert(after.sessions =~= before.sessions.update(at, after.sessions[at]));
    }
}

/// The exchanges record turns of a session at some times, and go through.
pub open spec fn records_turns(turns: Seq<Exchange>, times: Seq<i64>, id: Seq<char>) -> bool {
    forall|i: int|
        0 <= i < turns.len() ==> {
            &&& (#[trigger] turns[i]).statement == statement(
                RECORD_TURN@,
                seq![SqlV::Integer(times[i]), SqlV::Text(id)],
            )
            &&& turns[i].reply matches ReplyV::Changed(Ok(_))
        }
}

/// A session is resumed with its turns: after turns were recorded, the same user on
/// the same channel gets the same session, with as many turns more, active now.
/// Nothing is created.
pub proof fn law_session_resumes_with_its_turns(
    before: StoreV,
    log: Seq<Exchange>,
    middle: StoreV,
    user: Seq<char>,
    channel: Seq<char>,
    id: Seq<char>,
    now: i64,
    scores: Scores,
    session: SessionV,
    turns: Seq<Exchange>,
    times: Seq<i64>,
    later: StoreV,
    log2: Seq<Exchange>,
    after: StoreV,
    id2: Seq<char>,
    now2: i64,
    scores2: Scores,
    resumed: SessionV,
)
    requires
        sessions_differ(before.sessions),
        resolves(log, user, channel, id, now, scores, Ok(session)),
        runs(before, log, middle),
        turns.len() == times.len(),
        session.turn_count + turns.len() <= i64::MAX,
        records_turns(turns, times, session.node_id),
        runs(middle, turns, later),
        resolves(log2, user, channel, id2, now2, scores2, Ok(resumed)),
        runs(later, log2, after),
    ensures
        resumed == (SessionV {
            turn_count: (session.turn_count + turns.len()) as i64,
            last_active: now2,
            ..session
        }),
        resumed.user_id == user,
        resumed.channel == channel,
        after.sessions.len() == middle.sessions.len(),
        after.nodes == middle.nodes,
{
    law_one_session_for_each_user_and_channel(before, log, middle, user, channel, id, now, scores, session);
    let at = middle.sessions.index_of(session);
    lemma_turns_are_counted(middle, turns, times, later, at);
    law_one_session_for_each_user_and_channel(later, log2, after, user, channel, id2, now2, scores2, resumed);
    assert(later.sessions[at].user_id == user);
}

/// Different users, and different channels, have sessions of their own: the second
/// leaves the first as it was.
pub proof fn law_users_and_channels_have_their_own_sessions(
    before: StoreV,
    log: Seq<Exchange>,
    middle: StoreV,
    user: Seq<char>,
    channel: Seq<char>,
    id: Seq<char>,
    now: i64,
    scores: Scores,
    session: SessionV,
    log2: Seq<Exchange>,
    after: StoreV,
    user2: Seq<char>,
    channel2: Seq<char>,
    id2: Seq<char>,
    now2: i64,
    scores2: Scores,
    session2: SessionV,
)
    requires
        sessions_differ(before.sessions),
        resolves(log, user, channel, id, now, scores, Ok(session)),
        runs(before, log, middle),
        resolves(log2, user2, channel2, id2, now2, scores2, Ok(session2)),
        runs(middle, log2, after),
        !(user == user2 && channel == channel2),
    ensures
        session.node_id != session2.node_id,
        after.sessions.contains(session),
        after.sessions.contains(session2),
{
    law_one_session_for_each_user_and_channel(before, log, middle, user, channel, id, now, scores, session);
    law_one_session_for_each_user_and_channel(middle, log2, after, user2, channel2, id2, now2, scores2, session2);
    let i = middle.sessions.index_of(session);
    let j = after.sessions.index_of(session2);
    if exists|k: int|
        0 <= k < middle.sessions.len() && (#[trigger] middle.sessions[k]).user_id == user2
            && middle.sessions[k].channel == channel2 {
        let k = choose|k: int|
            0 <= k < middle.sessions.len() && (#[trigger] middle.sessions[k]).user_id == user2
                && middle.sessions[k].channel == channel2;
        assert(after.sessions == middle.sessions.update(k, session2));
        assert(k != i);
    }
    assert(after.sessions[i] == session);
    if i < j {
        assert(told_apart(after.sessions[i], after.sessions[j]));
    } else {
        assert(told_apart(after.sessions[j], after.sessions[i]));
    }
}

/// The sessions of a user are listed: each of them once and no others, the one that
/// was active last first.
pub proof fn law_sessions_of_a_user_are_listed(
    store: StoreV,
    log: Seq<Exchange>,
    after: StoreV,
    user: Seq<char>,
    listed: Seq<SessionV>,
)
    requires
        lists(log, user, Ok(listed)),
        runs(store, log, after),
    ensures
        after == store,
        listed.no_duplicates(),
        forall|s: SessionV| #[trigger] listed.contains(s) <==> store.sessions.contains(s) && s.user_id == user,
        forall|i: int, j: int|
            0 <= i < j < listed.len() ==> (#[trigger] listed[i]).last_active >= (#[trigger] listed[j]).last_active,
{
    let one = lemma_runs_two(store, log, after);
    assert(one == store);
    let rows = choose|rows: Seq<SessionV>| #[trigger]
        answers(log[1].reply, sessions_cells(rows)) && rows.no_duplicates() && (forall|x: SessionV| #[trigger]
            rows.contains(x) <==> store.sessions.contains(x) && x.user_id == user) && forall|i: int, j: int|
            0 <= i < j < rows.len() ==> (#[trigger] rows[i]).last_active >= (#[trigger] rows[j]).last_active;
    assert forall|i: int| 0 <= i < rows.len() implies session_row(session_line(#[trigger] rows[i])) == Read::<
        SessionV,
    >::Ok(rows[i]) by {
        law_session_reads_back(rows[i]);
    }
    lemma_answers_read(
        log[1].reply,
        rows,
        |s: SessionV| session_line(s),
        |row: Seq<SqlV>| session_row(row),
    );
    assert(listed == rows);
}

/// A session is listed for its user, and for no one else.
pub proof fn law_session_is_listed_for_its_user_only(
    before: StoreV,
    log: Seq<Exchange>,
    middle: StoreV,
    user: Seq<char>,
    channel: Seq<char>,
    id: Seq<char>,
    now: i64,
    scores: Scores,
    session: SessionV,
    later: StoreV,
    who: Seq<char>,
    log2: Seq<Exchange>,
    after: StoreV,
    listed: Seq<SessionV>,
)
    requires
        sessions_differ(before.sessions),
        resolves(log, user, channel, id, now, scores, Ok(session)),
        runs(before, log, middle),
        later.sessions == middle.sessions,
        lists(log2, who, Ok(listed)),
        runs(later, log2, after),
    ensures
        listed.contains(session) <==> who == user,
{
    law_one_session_for_each_user_and_channel(before, log, middle, user, channel, id, now, scores, session);
    law_sessions_of_a_user_are_listed(later, log2, after, who, listed);
}

/// A user on two channels has two sessions, and the session of another user is not
/// among them: in a store without sessions, once each of the three was asked for,
/// the list of the user holds exactly the two, with IDs of their own.
pub proof fn law_two_channels_are_two_sessions(
    before: StoreV,
    log1: Seq<Exchange>,
    store1: StoreV,
    log2: Seq<Exchange>,
    store2: StoreV,
    log3: Seq<Exchange>,
    store3: StoreV,
    log4: Seq<Exchange>,
    store4: StoreV,
    user: Seq<char>,
    channel1: Seq<char>,
    channel2: Seq<char>,
    other: Seq<char>,
    channel3: Seq<char>,
    ids: (Seq<char>, Seq<char>, Seq<char>),
    times: (i64, i64, i64),
    scores: (Scores, Scores, Scores),
    sessions: (SessionV, SessionV, SessionV),
    listed: Seq<SessionV>,
)
    requires
        before.sessions.len() == 0,
        channel1 != channel2,
        user != other,
        resolves(log1, user, channel1, ids.0, times.0, scores.0, Ok(sessions.0)),
        runs(before, log1, store1),
        resolves(log2, user, channel2, ids.1, times.1, scores.1, Ok(sessions.1)),
        runs(store1, log2, store2),
        resolves(log3, other, channel3, ids.2, times.2, scores.2, Ok(sessions.2)),
        runs(store2, log3, store3),
        lists(log4, user, Ok(listed)),
        runs(store3, log4, store4),
    ensures
        listed.len() == 2,
        listed.contains(sessions.0),
        listed.contains(sessions.1),
        sessions.0.node_id != sessions.1.node_id,
        sessions.0.node_id != sessions.2.node_id,
        sessions.1.node_id != sessions.2.node_id,
        listed[0].last_active >= listed[1].last_active,
{
    law_one_session_for_each_user_and_channel(
        before,
        log1,
        store1,
        user,
        channel1,
        ids.0,
        times.0,
        scores.0,
        sessions.0,
    );
    assert(store1.sessions =~= seq![sessions.0]);
    law_one_session_for_each_user_and_channel(
        store1,
        log2,
        store2,
        user,
        channel2,
        ids.1,
        times.1,
        scores.1,
        sessions.1,
    );
    assert(store2.sessions =~= seq![sessions.0, sessions.1]);
    law_one_session_for_each_user_and_channel(
        store2,
        log3,
        store3,
        other,
        channel3,
        ids.2,
        times.2,
        scores.2,
        sessions.2,
    );
    let all = store3.sessions;
    assert(all =~= seq![sessions.0, sessions.1, sessions.2]);
    assert(told_apart(all[0], all[1]));
    assert(told_apart(all[0], all[2]));
    assert(told_apart(all[1], all[2]));
    law_sessions_of_a_user_are_listed(store3, log4, store4, user, listed);
    assert(all[0] == sessions.0 && all.contains(sessions.0));
    assert(all[1] == sessions.1 && all.contains(sessions.1));
    assert(listed.contains(sessions.0) && listed.contains(sessions.1));
    let i = listed.index_of(sessions.0);
    let j = listed.index_of(sessions.1);
    assert(listed[i] == sessions.0 && listed[j] == sessions.1);
    if listed.len() > 2 {
        let k = if i != 0 && j != 0 {
            0int
        } else if i != 1 && j != 1 {
            1int
        } else {
            2int
        };
        assert(listed.contains(listed[k]));
        assert(all.contains(listed[k]) && listed[k].user_id == user);
        assert(listed[k] != listed[i] && listed[k] != listed[j]);
        let m = all.index_of(listed[k]);
        assert(all[m] == listed[k]);
    }
}

/// The user and the channel of a session are found by its ID, and by no other.
pub proof fn law_session_is_routed(
    store: StoreV,
    log: Seq<Exchange>,
    after: StoreV,
    id: Seq<char>,
    r: Option<(Seq<char>, Seq<char>)>,
)
    requires
        sessions_differ(store.sessions),
        routes(log, id, Ok(r)),
        runs(store, log, after),
    ensures
        after == store,
        forall|i: int|
            0 <= i < store.sessions.len() && (#[trigger] store.sessions[i]).node_id == id ==> r == Some(
                (store.sessions[i].user_id, store.sessions[i].channel),
            ),
        (forall|i: int| 0 <= i < store.sessions.len() ==> (#[trigger] store.sessions[i]).node_id != id) ==> r is None,
{
    let one = lemma_runs_two(store, log, after);
    assert(one == store);
    let all = store.sessions;
    let among = |row: Seq<SqlV>|
        exists|i: int|
            0 <= i < all.len() && (#[trigger] all[i]).node_id == id && row == seq![
                SqlV::Text(all[i].user_id),
                SqlV::Text(all[i].channel),
            ];
    let rows = choose|rows: Seq<Seq<SqlV>>| #[trigger]
        answers(log[1].reply, rows) && rows.no_duplicates() && forall|row: Seq<SqlV>| #[trigger]
            rows.contains(row) <==> among(row);
    if rows.len() > 0 {
        assert(rows.contains(rows[0]));
        let at = choose|i: int|
            0 <= i < all.len() && (#[trigger] all[i]).node_id == id && rows[0] == seq![
                SqlV::Text(all[i].user_id),
                SqlV::Text(all[i].channel),
            ];
        assert forall|i: int| 0 <= i < all.len() && (#[trigger] all[i]).node_id == id implies i == at by {
            if i < at {
                assert(told_apart(all[i], all[at]));
            } else if i > at {
                assert(told_apart(all[at], all[i]));
            }
        }
        assert(r == Some((all[at].user_id, all[at].channel)));
    } else {
        assert forall|i: int| 0 <= i < all.len() implies (#[trigger] all[i]).node_id != id by {
            if all[i].node_id == id {
                let row = seq![SqlV::Text(all[i].user_id), SqlV::Text(all[i].channel)];
                assert(among(row));
                assert(rows.contains(row));
            }
        }
    }
}

/// A session that was found or created is routed by its ID to its user and its
/// channel, as long as no session was changed since.
pub proof fn law_session_leads_back_to_its_user(
    before: StoreV,
    log: Seq<Exchange>,
    middle: StoreV,
    user: Seq<char>,
    channel: Seq<char>,
    id: Seq<char>,
    now: i64,
    scores: Scores,
    session: SessionV,
    later: StoreV,
    log2: Seq<Exchange>,
    after: StoreV,
    r: Option<(Seq<char>, Seq<char>)>,
)
    requires
        sessions_differ(before.sessions),
        resolves(log, user, channel, id, now, scores, Ok(session)),
        runs(before, log, middle),
        later.sessions == middle.sessions,
        routes(log2, session.node_id, Ok(r)),
        runs(later, log2, after),
    ensures
        r == Some((user, channel)),
{
    law_one_session_for_each_user_and_channel(before, log, middle, user, channel, id, now, scores, session);
    law_session_is_routed(later, log2, after, session.node_id, r);
    let at = middle.sessions.index_of(session);
    assert(later.sessions[at].node_id == session.node_id);
}

/// The count of all sessions and the count of all turns are those of the store.
pub proof fn law_sessions_and_turns_are_counted(
    store: StoreV,
    log: Seq<Exchange>,
    after: StoreV,
    sessions: i64,
    turns: i64,
)
    requires
        counts(log, Ok((sessions, turns))),
        runs(store, log, after),
    ensures
        after == store,
        sessions == store.sessions.len(),
        turns == turns_of(store.sessions),
{
    let one = lemma_runs_split(store, log, after, 1);
    lemma_runs_one(store, log.take(1), one);
    assert(log.take(1)[0] == log[0]);
    let rest = log.skip(1);
    let two = lemma_runs_two(one, rest, after);
    assert(rest[0] == log[1]);
    assert(rest[1] == log[2]);
    let n = choose|n: i64| #[trigger] counts_to(log[1].reply, n) && n == store.sessions.len();
    let m = choose|m: i64| #[trigger] counts_to(log[2].reply, m) && m == turns_of(store.sessions);
    assert(sessions == n);
    assert(turns == m);
}

/// One more turn of one session is one more turn of all.
proof fn lemma_one_more_turn(sessions: Seq<SessionV>, changed: Seq<SessionV>, at: int, now: i64)
    requires
        0 <= at < sessions.len(),
        sessions[at].turn_count < i64::MAX,
        changed == sessions.update(at, turned(sessions[at], now)),
    ensures
        turns_of(changed) == turns_of(sessions) + 1,
    decreases sessions.len(),
{
    if at == sessions.len() - 1 {
        assert(changed.drop_last() =~= sessions.drop_last());
    } else {
        assert(changed.drop_last() =~= sessions.drop_last().update(at, turned(sessions[at], now)));
        lemma_one_more_turn(sessions.drop_last(), changed.drop_last(), at, now);
    }
}

/// A recorded turn raises the count of all turns by one where it is one of a session,
/// and leaves it otherwise. The count of all sessions stays.
pub proof fn law_a_turn_is_counted_once(
    before: StoreV,
    log: Seq<Exchange>,
    middle: StoreV,
    sessions: i64,
    turns: i64,
    id: Seq<char>,
    now: i64,
    turn: Exchange,
    later: StoreV,
    log2: Seq<Exchange>,
    after: StoreV,
    sessions2: i64,
    turns2: i64,
)
    requires
        sessions_differ(before.sessions),
        countable(before.sessions, id),
        counts(log, Ok((sessions, turns))),
        runs(before, log, middle),
        records_turns(seq![turn], seq![now], id),
        runs(middle, seq![turn], later),
        counts(log2, Ok((sessions2, turns2))),
        runs(later, log2, after),
    ensures
        sessions2 == sessions,
        turns2 == turns + if exists|i: int|
            0 <= i < before.sessions.len() && (#[trigger] before.sessions[i]).node_id == id {
            1int
        } else {
            0
        },
        before.sessions.len() == 0 ==> sessions == 0 && turns == 0,
{
    law_sessions_and_turns_are_counted(before, log, middle, sessions, turns);
    let all = before.sessions;
    if exists|i: int| 0 <= i < all.len() && (#[trigger] all[i]).node_id == id {
        let at = choose|i: int| 0 <= i < all.len() && (#[trigger] all[i]).node_id == id;
        lemma_turns_are_counted(middle, seq![turn], seq![now], later, at);
        lemma_one_more_turn(middle.sessions, later.sessions, at, now);
    } else {
        lemma_runs_one(middle, seq![turn], later);
        assert(seq![turn][0] == turn);
        assert(later.sessions =~= all);
    }
    law_sessions_and_turns_are_counted(later, log2, after, sessions2, turns2);
}

}
