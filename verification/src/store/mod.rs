//! A store that keeps to its statements.
//!
//! Nothing is claimed of what a database answers. The laws in here say what
//! follows for a caller where it answers as its statements say: a row that was
//! stored stays until a statement changes it, and a query lists the rows that it
//! asks for. A store is what the tables hold, and `runs` ties a log of exchanges to
//! the store before it and the store after it.

pub mod edges;
pub mod graph;
pub mod memory;
pub mod nodes;
pub mod removal;
pub mod sessions;
pub mod upkeep;
pub mod wording;

use vstd::prelude::*;

use self::wording::{
    children_among, columns_update, nodes_among, open_contradictions_among,
    BUMP_SESSION, COUNT_BY_KIND, COUNT_CONTRADICTIONS, COUNT_SESSIONS, COUNT_SUPPORTING, COUNT_TURNS,
    DELETE_CONTRADICTIONS, DELETE_EDGES, DELETE_NODE, EDGE_COUNT, EDGE_EXISTS, FIND_BY_PREFIX, FIND_SESSION,
    GET_ALL_EDGES, GET_ALL_EMBEDDINGS, GET_ALL_NODES_LIGHT, GET_ALL_UNRESOLVED, GET_DECAYABLE, GET_EDGES_FROM,
    GET_EDGES_TO, GET_META, GET_NEIGHBORS, GET_NODE, GET_NODES_BY_KIND, GET_PENDING_NOTIFICATIONS,
    GET_RECENT_SESSION_NODES, INSERT_CONTRADICTION, INSERT_EDGE, INSERT_NODE, INSERT_SESSION, LIST_ALL, LIST_BY_KIND,
    LIST_SESSIONS, LIST_TRUST, MARK_COMPACTED, NODE_COUNT, RECORD_TURN, RESOLVE_CONTRADICTION, SEARCH_NODES,
    SESSION_ROUTING, SET_META, TOUCH_NODE, UPDATE_IMPORTANCE, UPDATE_TRUST, UPSERT_NODE,
};
use crate::db::queries::{pattern_meaning, Wild};
use crate::db::rows::{all_of, first_of, read_all, Read};
use crate::db::{Exchange, ReplyV, RowV, SqlV, StatementV};
use crate::session::SessionV;
use crate::types::{ContradictionV, RealBits};

verus! {

/// What the tables hold.
pub struct StoreV {
    /// The rows of the nodes, by ID.
    pub nodes: Map<Seq<char>, Seq<SqlV>>,
    /// The rows of the edges.
    pub edges: Set<Seq<SqlV>>,
    /// The contradictions.
    pub contradictions: Set<ContradictionV>,
    /// The sessions, in the order in which they were created.
    pub sessions: Seq<SessionV>,
    /// The values that are kept by key.
    pub meta: Map<Seq<char>, Seq<char>>,
}

/// The text that a statement binds to a parameter, `0` for the first.
pub open spec fn text_at(s: StatementV, i: int) -> Seq<char> {
    s.params[i]->Text_0
}

/// The integer that a statement binds to a parameter, `0` for the first.
pub open spec fn integer_at(s: StatementV, i: int) -> i64 {
    s.params[i]->Integer_0
}

/// A row of nodes after one with the same ID is stored over it: it keeps how often
/// and when the node was accessed, and when it was created.
pub open spec fn replaced(old_row: Seq<SqlV>, row: Seq<SqlV>) -> Seq<SqlV> {
    row.update(6, old_row[6]).update(7, old_row[7]).update(8, old_row[8])
}

/// A row of nodes after an access. The count of accesses that follows the largest
/// number is left open.
pub open spec fn accessed(before: Seq<SqlV>, now: i64, after: Seq<SqlV>) -> bool {
    &&& after == before.update(6, after[6]).update(8, SqlV::Integer(now))
    &&& before[6] is Integer && before[6]->Integer_0 < i64::MAX ==> after[6] == SqlV::Integer(
        (before[6]->Integer_0 + 1) as i64,
    )
}

/// The place of a column of nodes that can be set, and zero for any other name.
pub open spec fn column_of(name: Seq<char>) -> int {
    if name == "kind"@ {
        1
    } else if name == "title"@ {
        2
    } else if name == "body"@ {
        3
    } else if name == "importance"@ {
        4
    } else if name == "trust_score"@ {
        5
    } else {
        0
    }
}

/// A row of nodes after some of its columns were set, by their names.
pub open spec fn set_in(row: Seq<SqlV>, sets: Seq<(Seq<char>, SqlV)>) -> Seq<SqlV>
    decreases sets.len(),
{
    if sets.len() == 0 {
        row
    } else {
        set_in(row, sets.drop_last()).update(column_of(sets.last().0), sets.last().1)
    }
}

/// The text in a column, or nothing.
pub open spec fn text_in(value: SqlV) -> Seq<char> {
    match value {
        SqlV::Text(t) => t,
        _ => Seq::empty(),
    }
}

/// A store after the row of one node was replaced, where there is one.
pub open spec fn with_row(store: StoreV, id: Seq<char>, row: Seq<SqlV>) -> StoreV {
    if store.nodes.contains_key(id) {
        StoreV { nodes: store.nodes.insert(id, row), ..store }
    } else {
        store
    }
}

/// How many rows of nodes have an ID.
pub open spec fn rows_with(store: StoreV, id: Seq<char>) -> nat {
    if store.nodes.contains_key(id) {
        1
    } else {
        0
    }
}

/// A contradiction after the one of two nodes was resolved.
pub open spec fn resolved_between(c: ContradictionV, a: Seq<char>, b: Seq<char>) -> ContradictionV {
    if c.node_a == a && c.node_b == b {
        ContradictionV { resolved: true, ..c }
    } else {
        c
    }
}

/// A session after a turn.
pub open spec fn turned(session: SessionV, now: i64) -> SessionV {
    SessionV { turn_count: (session.turn_count + 1) as i64, last_active: now, ..session }
}

/// Some sessions, of which the one with an ID is replaced.
pub open spec fn where_id(
    sessions: Seq<SessionV>,
    id: Seq<char>,
    change: spec_fn(SessionV) -> SessionV,
) -> Seq<SessionV> {
    sessions.map_values(
        |s: SessionV|
            if s.node_id == id {
                change(s)
            } else {
                s
            },
    )
}

/// What a statement that went through makes of a store. `n` is how many rows it
/// changed.
pub open spec fn writes(before: StoreV, s: StatementV, n: usize, after: StoreV) -> bool {
    let id = text_at(s, 0);
    &&& s.sql == INSERT_NODE@ ==> {
        &&& !before.nodes.contains_key(id)
        &&& after == StoreV { nodes: before.nodes.insert(id, s.params), ..before }
    }
    &&& s.sql == UPSERT_NODE@ ==> after == StoreV {
        nodes: before.nodes.insert(
            id,
            if before.nodes.contains_key(id) {
                replaced(before.nodes[id], s.params)
            } else {
                s.params
            },
        ),
        ..before
    }
    &&& s.sql == TOUCH_NODE@ ==> {
        let touched = text_at(s, 1);
        &&& after == StoreV { nodes: after.nodes, ..before }
        &&& after.nodes.dom() == before.nodes.dom()
        &&& forall|x: Seq<char>|
            before.nodes.contains_key(x) && x != touched ==> #[trigger] after.nodes[x] == before.nodes[x]
        &&& before.nodes.contains_key(touched) ==> accessed(
            before.nodes[touched],
            integer_at(s, 0),
            after.nodes[touched],
        )
    }
    &&& s.sql == DELETE_NODE@ ==> {
        &&& after == StoreV { nodes: before.nodes.remove(id), ..before }
        &&& n == rows_with(before, id)
    }
    &&& s.sql == UPDATE_IMPORTANCE@ ==> after == with_row(
        before,
        text_at(s, 1),
        before.nodes[text_at(s, 1)].update(4, s.params[0]),
    )
    &&& s.sql == UPDATE_TRUST@ ==> after == with_row(
        before,
        text_at(s, 1),
        before.nodes[text_at(s, 1)].update(5, s.params[0]),
    )
    &&& s.sql == MARK_COMPACTED@ ==> after == with_row(
        before,
        text_at(s, 1),
        before.nodes[text_at(s, 1)].update(3, SqlV::Text(text_in(before.nodes[text_at(s, 1)][3]) + id)),
    )
    &&& forall|sets: Seq<(Seq<char>, SqlV)>, x: Seq<char>|
        sets.len() > 0 && (forall|i: int| 0 <= i < sets.len() ==> column_of((#[trigger] sets[i]).0) > 0) && s
            == #[trigger] columns_update(sets, x) ==> {
            &&& after == with_row(before, x, set_in(before.nodes[x], sets))
            &&& n == rows_with(before, x)
        }
    &&& s.sql == DELETE_EDGES@ ==> after == StoreV {
        edges: before.edges.filter(|edge: Seq<SqlV>| edge[1] != s.params[0] && edge[2] != s.params[0]),
        ..before
    }
    &&& s.sql == DELETE_CONTRADICTIONS@ ==> after == StoreV {
        contradictions: before.contradictions.filter(|c: ContradictionV| c.node_a != id && c.node_b != id),
        ..before
    }
    &&& s.sql == INSERT_EDGE@ ==> {
        &&& n > 0 ==> forall|row: Seq<SqlV>| #[trigger] before.edges.contains(row) ==> row[0] != s.params[0]
        &&& after == StoreV {
            edges: if n > 0 {
                before.edges.insert(s.params)
            } else {
                before.edges
            },
            ..before
        }
    }
    &&& s.sql == INSERT_CONTRADICTION@ ==> after == StoreV {
        contradictions: if n > 0 {
            before.contradictions.insert(
                ContradictionV {
                    node_a: id,
                    node_b: text_at(s, 1),
                    detected_at: integer_at(s, 2),
                    resolved: false,
                },
            )
        } else {
            before.contradictions
        },
        ..before
    }
    &&& s.sql == RESOLVE_CONTRADICTION@ ==> after == StoreV {
        contradictions: before.contradictions.map(|c: ContradictionV| resolved_between(c, id, text_at(s, 1))),
        ..before
    }
    &&& s.sql == SET_META@ ==> after == StoreV { meta: before.meta.insert(id, text_at(s, 1)), ..before }
    &&& s.sql == INSERT_SESSION@ ==> {
        let session = SessionV {
            node_id: id,
            user_id: text_at(s, 1),
            channel: text_at(s, 2),
            created_at: integer_at(s, 3),
            turn_count: 0,
            last_active: integer_at(s, 4),
        };
        &&& forall|i: int| 0 <= i < before.sessions.len() ==> told_apart(#[trigger] before.sessions[i], session)
        &&& after == StoreV { sessions: before.sessions.push(session), ..before }
    }
    &&& s.sql == BUMP_SESSION@ ==> after == StoreV {
        sessions: where_id(
            before.sessions,
            text_at(s, 1),
            |session: SessionV| SessionV { last_active: integer_at(s, 0), ..session },
        ),
        ..before
    }
    &&& s.sql == RECORD_TURN@ && countable(before.sessions, text_at(s, 1)) ==> after == StoreV {
        sessions: where_id(before.sessions, text_at(s, 1), |session: SessionV| turned(session, integer_at(s, 0))),
        ..before
    }
}

/// Another turn of the session with an ID can be counted.
pub open spec fn countable(sessions: Seq<SessionV>, id: Seq<char>) -> bool {
    forall|i: int|
        0 <= i < sessions.len() && (#[trigger] sessions[i]).node_id == id ==> sessions[i].turn_count < i64::MAX
}

/// Two sessions have different IDs, and are of different users or on different
/// channels.
pub open spec fn told_apart(a: SessionV, b: SessionV) -> bool {
    a.node_id != b.node_id && !(a.user_id == b.user_id && a.channel == b.channel)
}

/// Any two sessions are told apart.
pub open spec fn sessions_differ(sessions: Seq<SessionV>) -> bool {
    forall|i: int, j: int|
        0 <= i < j < sessions.len() ==> told_apart(#[trigger] sessions[i], #[trigger] sessions[j])
}

/// An answer is these rows.
pub open spec fn answers(reply: ReplyV, rows: Seq<Seq<SqlV>>) -> bool {
    reply == ReplyV::Rows(Ok(rows.map_values(|row: Seq<SqlV>| RowV::Ok(row))))
}

/// An answer is the rows that `among` holds of, each once, in some order.
pub open spec fn enumerates(reply: ReplyV, among: spec_fn(Seq<SqlV>) -> bool) -> bool {
    exists|rows: Seq<Seq<SqlV>>| #[trigger]
        answers(reply, rows) && rows.no_duplicates() && forall|row: Seq<SqlV>| #[trigger]
            rows.contains(row) <==> among(row)
}

/// An answer is one number.
pub open spec fn counts_to(reply: ReplyV, n: i64) -> bool {
    answers(reply, seq![seq![SqlV::Integer(n)]])
}

/// The row of a contradiction.
pub open spec fn contradiction_cells(c: ContradictionV) -> Seq<SqlV> {
    seq![
        SqlV::Text(c.node_a),
        SqlV::Text(c.node_b),
        SqlV::Integer(c.detected_at),
        SqlV::Integer(
            if c.resolved {
                1
            } else {
                0
            },
        ),
    ]
}

/// An edge of a kind leads from one node to another.
pub open spec fn linked(store: StoreV, src: SqlV, dst: SqlV, kind: SqlV) -> bool {
    exists|edge: Seq<SqlV>| #[trigger]
        store.edges.contains(edge) && edge[1] == src && edge[2] == dst && edge[3] == kind
}

/// A contradiction is open, and names one of some nodes.
pub open spec fn open_among(store: StoreV, ids: Seq<Seq<char>>, c: ContradictionV) -> bool {
    store.contradictions.contains(c) && !c.resolved && (ids.contains(c.node_a) || ids.contains(c.node_b))
}

/// A node is a notification of a session that was not delivered yet.
pub open spec fn pending(store: StoreV, session: SqlV, id: Seq<char>) -> bool {
    &&& store.nodes.contains_key(id)
    &&& store.nodes[id][1] == SqlV::Text("notification"@)
    &&& store.nodes[id][6] == SqlV::Integer(0)
    &&& linked(store, store.nodes[id][0], session, SqlV::Text("part_of"@))
}

/// No notification is part of a session by two edges.
pub open spec fn one_edge_each(store: StoreV, session: SqlV) -> bool {
    let kind = SqlV::Text("part_of"@);
    forall|a: Seq<SqlV>, b: Seq<SqlV>|
        #![trigger store.edges.contains(a), store.edges.contains(b)]
        store.edges.contains(a) && store.edges.contains(b) && a[1] == b[1] && a[2] == session && b[2] == session && a[3]
            == kind && b[3] == kind ==> a == b
}

/// A node is an input or a fact that hangs directly under a session.
pub open spec fn recent(store: StoreV, session: SqlV, id: Seq<char>) -> bool {
    let row = store.nodes[id];
    &&& store.nodes.contains_key(id)
    &&& row[1] == SqlV::Text("user_input"@) || row[1] == SqlV::Text(
        "fact"@,
    )
    &&& hangs_under(store, row[0], session)
}

/// Some of the rows that `among` holds of: each of them once, at most `limit`, and
/// as many as there are up to that.
pub open spec fn some_of(rows: Seq<Seq<SqlV>>, among: spec_fn(Seq<SqlV>) -> bool, limit: i64) -> bool {
    &&& rows.no_duplicates()
    &&& rows.len() <= limit
    &&& forall|i: int| 0 <= i < rows.len() ==> among(#[trigger] rows[i])
    &&& forall|row: Seq<SqlV>| among(row) && !(#[trigger] rows.contains(row)) ==> rows.len() == limit
}

/// The newest of some rows, by the column with their time of creation, the newest
/// first: none is left out that is newer than one of them.
pub open spec fn newest(rows: Seq<Seq<SqlV>>, among: spec_fn(Seq<SqlV>) -> bool, limit: i64) -> bool {
    &&& some_of(rows, among, limit)
    &&& forall|i: int, j: int|
        0 <= i < j < rows.len() ==> (#[trigger] rows[i])[7]->Integer_0 >= (#[trigger] rows[j])[7]->Integer_0
    &&& forall|row: Seq<SqlV>, i: int|
        among(row) && !(#[trigger] rows.contains(row)) && 0 <= i < rows.len() ==> (#[trigger] rows[i])[7]->Integer_0
            >= row[7]->Integer_0
}

/// The most important of some rows, the most important first, and of equals the newest
/// first: none is left out that is more important than one of them.
pub open spec fn weightiest(rows: Seq<Seq<SqlV>>, among: spec_fn(Seq<SqlV>) -> bool) -> bool {
    &&& forall|i: int, j: int|
        0 <= i < j < rows.len() ==> no_less((#[trigger] rows[i])[4], (#[trigger] rows[j])[4]) && (rows[i][4] == rows[j][4]
            ==> rows[i][7]->Integer_0 >= rows[j][7]->Integer_0)
    &&& forall|row: Seq<SqlV>, i: int|
        among(row) && !(#[trigger] rows.contains(row)) && 0 <= i < rows.len() ==> no_less((#[trigger] rows[i])[4], row[4])
}

/// A number that is not negative is as large as another one, or larger.
pub open spec fn no_less(a: SqlV, b: SqlV) -> bool {
    a->Real_0 >= b->Real_0
}

/// A row of nodes without its embedding is in a store.
pub open spec fn holds_light(store: StoreV, row: Seq<SqlV>) -> bool {
    exists|x: Seq<char>| #[trigger] store.nodes.contains_key(x) && row == store.nodes[x].take(10)
}

/// A capital letter of ASCII as a small one.
pub open spec fn small(c: char) -> char {
    if 'A' <= c <= 'Z' {
        (c as u32 + 32) as char
    } else {
        c
    }
}

/// A text is what the parts of a pattern stand for, one after the other. Capital and
/// small letters of ASCII are the same.
pub open spec fn fits(parts: Seq<Wild>, text: Seq<char>) -> bool
    decreases parts.len(),
{
    if parts.len() == 0 {
        text.len() == 0
    } else {
        match parts[0] {
            Wild::Any => exists|n: int| 0 <= n <= text.len() && fits(parts.skip(1), #[trigger] text.skip(n)),
            Wild::One => text.len() > 0 && fits(parts.skip(1), text.skip(1)),
            Wild::Exactly(c) => text.len() > 0 && small(text[0]) == small(c[0]) && fits(parts.skip(1), text.skip(1)),
        }
    }
}

/// A text is like a pattern.
pub open spec fn like(value: SqlV, pattern: Seq<char>) -> bool {
    value is Text && fits(pattern_meaning(pattern), value->Text_0)
}

/// A row of nodes in a store has a title or a body that is like a pattern.
pub open spec fn like_row(store: StoreV, pattern: Seq<char>, row: Seq<SqlV>) -> bool {
    store.nodes.contains_value(row) && (like(row[2], pattern) || like(row[3], pattern))
}

/// No title and no body has the character in it that ends a text in C.
pub open spec fn without_nul(store: StoreV) -> bool {
    forall|x: Seq<char>| #[trigger]
        store.nodes.contains_key(x) ==> !text_in(store.nodes[x][2]).contains('\0') && !text_in(
            store.nodes[x][3],
        ).contains('\0')
}

/// The IDs of the nodes of a kind.
pub open spec fn of_kind(store: StoreV, kind: SqlV) -> Set<Seq<char>> {
    store.nodes.dom().filter(|x: Seq<char>| store.nodes[x][1] == kind)
}

/// The open contradictions that name a node.
pub open spec fn doubts(store: StoreV, id: Seq<char>) -> Set<ContradictionV> {
    store.contradictions.filter(|c: ContradictionV| !c.resolved && (c.node_a == id || c.node_b == id))
}

/// The bits of the largest number that is not negative. Up to it, numbers compare as
/// their bits do.
pub const LARGEST: RealBits = 0x7ff0_0000_0000_0000;

/// The bits of a hundredth.
pub const HUNDREDTH: RealBits = 0x3f84_7ae1_47ae_147b;

/// Every score of every node is a number that is not negative.
pub open spec fn scored(store: StoreV) -> bool {
    forall|x: Seq<char>| #[trigger]
        store.nodes.contains_key(x) ==> {
            let row = store.nodes[x];
            &&& row[4] is Real && row[4]->Real_0 <= LARGEST
            &&& row[5] is Real && row[5]->Real_0 <= LARGEST
            &&& row[9] is Real && row[9]->Real_0 <= LARGEST
        }
}

/// The edges that support a node and leave a node that is trusted above a score.
pub open spec fn supporters(store: StoreV, id: SqlV, above: RealBits) -> Set<Seq<SqlV>> {
    store.edges.filter(
        |edge: Seq<SqlV>|
            edge[2] == id && edge[3] == SqlV::Text("supports"@) && edge[1] is Text && store.nodes.contains_key(
                edge[1]->Text_0,
            ) && store.nodes[edge[1]->Text_0][5]->Real_0 > above,
    )
}

/// A row of nodes may decay: it has a decay rate, it is of importance still, and it
/// has rested.
pub open spec fn may_decay(row: Seq<SqlV>, since: i64) -> bool {
    row[9]->Real_0 > 0 && row[4]->Real_0 > HUNDREDTH && rested(row, since)
}

/// A node hangs directly under another: it is part of it, or derives from it.
pub open spec fn hangs_under(store: StoreV, src: SqlV, dst: SqlV) -> bool {
    linked(store, src, dst, SqlV::Text("part_of"@)) || linked(
        store,
        src,
        dst,
        SqlV::Text("derives_from"@),
    )
}

/// A node and the kind of an edge between it and another, in either direction.
pub open spec fn neighbors(store: StoreV, id: SqlV, other: SqlV, kind: SqlV) -> bool {
    linked(store, id, other, kind) || linked(store, other, id, kind)
}

/// When a row of nodes was last accessed, or created where it never was.
pub open spec fn last_used(row: Seq<SqlV>) -> SqlV {
    if row[8] is Null {
        row[7]
    } else {
        row[8]
    }
}

/// How many turns there were in some sessions.
pub open spec fn turns_of(sessions: Seq<SessionV>) -> int
    decreases sessions.len(),
{
    if sessions.len() == 0 {
        0
    } else {
        turns_of(sessions.drop_last()) + sessions.last().turn_count
    }
}

/// The row of a session.
pub open spec fn session_line(session: SessionV) -> Seq<SqlV> {
    seq![
        SqlV::Text(session.node_id),
        SqlV::Text(session.user_id),
        SqlV::Text(session.channel),
        SqlV::Integer(session.created_at),
        SqlV::Integer(session.turn_count),
        SqlV::Integer(session.last_active),
    ]
}

/// The rows of some sessions.
pub open spec fn sessions_cells(sessions: Seq<SessionV>) -> Seq<Seq<SqlV>> {
    sessions.map_values(|s: SessionV| session_line(s))
}

/// What a store answers to a query for nodes. How negative scores compare is left
/// open.
pub open spec fn reads_nodes(store: StoreV, s: StatementV, reply: ReplyV) -> bool {
    let id = text_at(s, 0);
    &&& s.sql == GET_NODE@ ==> answers(
        reply,
        if store.nodes.contains_key(id) {
            seq![store.nodes[id]]
        } else {
            Seq::empty()
        },
    )
    &&& forall|ids: Seq<Seq<char>>|
        s == #[trigger] nodes_among(ids) ==> enumerates(
            reply,
            |row: Seq<SqlV>|
                exists|x: Seq<char>| #[trigger] store.nodes.contains_key(x) && ids.contains(x) && row == store.nodes[x],
        )
    &&& s.sql == GET_NODES_BY_KIND@ ==> enumerates(
        reply,
        |row: Seq<SqlV>| row[1] == s.params[0] && store.nodes.contains_value(row),
    )
    &&& s.sql == FIND_BY_PREFIX@ ==> enumerates(
        reply,
        |row: Seq<SqlV>|
            exists|x: Seq<char>| #[trigger]
                store.nodes.contains_key(x) && id.is_prefix_of(x) && row == seq![SqlV::Text(x)],
    )
    &&& s.sql == SEARCH_NODES@ && integer_at(s, 1) >= 0 && !id.contains('\0') && without_nul(store) ==> exists|
        rows: Seq<Seq<SqlV>>,
    | #[trigger]
        answers(reply, rows) && some_of(rows, |row: Seq<SqlV>| like_row(store, id, row), integer_at(s, 1)) && (scored(
            store,
        ) ==> weightiest(rows, |row: Seq<SqlV>| like_row(store, id, row)))
    &&& s.sql == LIST_BY_KIND@ && integer_at(s, 1) >= 0 ==> exists|rows: Seq<Seq<SqlV>>| #[trigger]
        answers(reply, rows) && newest(
            rows,
            |row: Seq<SqlV>| row[1] == s.params[0] && holds_light(store, row),
            integer_at(s, 1),
        )
    &&& s.sql == LIST_ALL@ && integer_at(s, 0) >= 0 ==> exists|rows: Seq<Seq<SqlV>>| #[trigger]
        answers(reply, rows) && newest(rows, |row: Seq<SqlV>| holds_light(store, row), integer_at(s, 0))
    &&& s.sql == GET_ALL_NODES_LIGHT@ ==> enumerates(reply, |row: Seq<SqlV>| holds_light(store, row))
    &&& s.sql == GET_ALL_EMBEDDINGS@ ==> enumerates(
        reply,
        |row: Seq<SqlV>|
            exists|x: Seq<char>| #[trigger]
                store.nodes.contains_key(x) && !(store.nodes[x][10] is Null) && row == seq![
                    store.nodes[x][0],
                    store.nodes[x][10],
                ],
    )
    &&& s.sql == LIST_TRUST@ ==> enumerates(
        reply,
        |row: Seq<SqlV>|
            exists|x: Seq<char>| #[trigger]
                store.nodes.contains_key(x) && row == seq![store.nodes[x][0], store.nodes[x][5]],
    )
    &&& s.sql == GET_DECAYABLE@ ==> exists|rows: Seq<Seq<SqlV>>| #[trigger]
        answers(reply, rows) && rows.no_duplicates() && forall|row: Seq<SqlV>| #[trigger]
            rows.contains(row) ==> exists|x: Seq<char>| #[trigger]
                store.nodes.contains_key(x) && rested(store.nodes[x], integer_at(s, 0)) && row == seq![
                    store.nodes[x][0],
                    store.nodes[x][4],
                    store.nodes[x][9],
                    last_used(store.nodes[x]),
                ]
    &&& s.sql == GET_DECAYABLE@ && scored(store) ==> enumerates(
        reply,
        |row: Seq<SqlV>|
            exists|x: Seq<char>| #[trigger]
                store.nodes.contains_key(x) && may_decay(store.nodes[x], integer_at(s, 0)) && row == seq![
                    store.nodes[x][0],
                    store.nodes[x][4],
                    store.nodes[x][9],
                    last_used(store.nodes[x]),
                ],
    )
    &&& s.sql == NODE_COUNT@ ==> exists|n: i64| #[trigger] counts_to(reply, n) && n == store.nodes.len()
    &&& s.sql == COUNT_BY_KIND@ ==> enumerates(
        reply,
        |row: Seq<SqlV>|
            row.len() == 2 && row[1] is Integer && row[1]->Integer_0 > 0 && row[1]->Integer_0 == of_kind(
                store,
                row[0],
            ).len(),
    )
    &&& s.sql == GET_META@ ==> answers(
        reply,
        if store.meta.contains_key(id) {
            seq![seq![SqlV::Text(store.meta[id])]]
        } else {
            Seq::empty()
        },
    )
}

/// A row of nodes was never accessed, or not since some time.
pub open spec fn rested(row: Seq<SqlV>, since: i64) -> bool {
    row[8] is Null || row[8]->Integer_0 < since
}

/// What a store answers to a query for edges, for contradictions, or for nodes by
/// their edges. How negative scores compare is left open.
pub open spec fn reads_edges(store: StoreV, s: StatementV, reply: ReplyV) -> bool {
    &&& s.sql == GET_EDGES_FROM@ ==> enumerates(
        reply,
        |row: Seq<SqlV>| store.edges.contains(row) && row[1] == s.params[0],
    )
    &&& s.sql == GET_EDGES_TO@ ==> enumerates(
        reply,
        |row: Seq<SqlV>| store.edges.contains(row) && row[2] == s.params[0],
    )
    &&& s.sql == GET_ALL_EDGES@ ==> enumerates(reply, |row: Seq<SqlV>| store.edges.contains(row))
    &&& s.sql == EDGE_EXISTS@ ==> exists|n: i64| #[trigger]
        counts_to(reply, n) && (n > 0 <==> linked(store, s.params[0], s.params[1], s.params[2]))
    &&& s.sql == EDGE_COUNT@ ==> exists|n: i64| #[trigger] counts_to(reply, n) && n == store.edges.len()
    &&& s.sql == GET_NEIGHBORS@ ==> enumerates(
        reply,
        |row: Seq<SqlV>| row.len() == 2 && neighbors(store, s.params[0], row[0], row[1]),
    )
    &&& s.sql == COUNT_SUPPORTING@ ==> exists|n: i64| #[trigger]
        counts_to(reply, n) && n >= 0 && (n > 0 ==> exists|x: SqlV| #[trigger]
            linked(store, x, s.params[0], SqlV::Text("supports"@))) && (scored(store)
            && s.params[1] is Real && s.params[1]->Real_0 <= LARGEST ==> n == supporters(
            store,
            s.params[0],
            s.params[1]->Real_0,
        ).len())
    &&& forall|parents: Seq<Seq<char>>|
        s == #[trigger] children_among(parents) ==> enumerates(
            reply,
            |row: Seq<SqlV>|
                row.len() == 1 && exists|p: Seq<char>| #[trigger]
                    parents.contains(p) && hangs_under(store, row[0], SqlV::Text(p)),
        )
    &&& s.sql == GET_RECENT_SESSION_NODES@ && integer_at(s, 1) >= 0 ==> exists|rows: Seq<Seq<SqlV>>| #[trigger]
        answers(reply, rows) && newest(
            rows,
            |row: Seq<SqlV>| exists|x: Seq<char>| #[trigger] recent(store, s.params[0], x) && row == store.nodes[x],
            integer_at(s, 1),
        )
    &&& s.sql == GET_PENDING_NOTIFICATIONS@ ==> exists|rows: Seq<Seq<SqlV>>| #[trigger]
        answers(reply, rows) && (one_edge_each(store, s.params[0]) ==> rows.no_duplicates()) && (forall|
            row: Seq<SqlV>,
        | #[trigger]
            rows.contains(row) <==> exists|x: Seq<char>| #[trigger]
                pending(store, s.params[0], x) && row == store.nodes[x].take(10)) && forall|i: int, j: int|
            0 <= i < j < rows.len() ==> (#[trigger] rows[i])[7]->Integer_0 <= (#[trigger] rows[j])[7]->Integer_0
    &&& s.sql == GET_ALL_UNRESOLVED@ ==> enumerates(
        reply,
        |row: Seq<SqlV>|
            exists|c: ContradictionV|
                store.contradictions.contains(c) && !c.resolved && row == #[trigger] contradiction_cells(c),
    )
    &&& forall|ids: Seq<Seq<char>>|
        s == #[trigger] open_contradictions_among(ids) ==> enumerates(
            reply,
            |row: Seq<SqlV>|
                exists|c: ContradictionV| open_among(store, ids, c) && row == #[trigger] contradiction_cells(c),
        )
    &&& s.sql == COUNT_CONTRADICTIONS@ ==> exists|n: i64| #[trigger]
        counts_to(reply, n) && n == doubts(store, text_at(s, 0)).len()
}

/// What a store answers to a query for sessions.
pub open spec fn reads_sessions(store: StoreV, s: StatementV, reply: ReplyV) -> bool {
    let id = text_at(s, 0);
    &&& s.sql == FIND_SESSION@ ==> enumerates(
        reply,
        |row: Seq<SqlV>|
            exists|i: int|
                0 <= i < store.sessions.len() && row == session_line(#[trigger] store.sessions[i])
                    && store.sessions[i].user_id == id && store.sessions[i].channel == text_at(s, 1),
    )
    &&& s.sql == LIST_SESSIONS@ ==> exists|listed: Seq<SessionV>| #[trigger]
        answers(reply, sessions_cells(listed)) && listed.no_duplicates() && (forall|x: SessionV| #[trigger]
            listed.contains(x) <==> store.sessions.contains(x) && x.user_id == id) && forall|i: int, j: int|
            0 <= i < j < listed.len() ==> (#[trigger] listed[i]).last_active >= (#[trigger] listed[j]).last_active
    &&& s.sql == COUNT_SESSIONS@ ==> exists|n: i64| #[trigger] counts_to(reply, n) && n == store.sessions.len()
    &&& s.sql == COUNT_TURNS@ ==> exists|n: i64| #[trigger] counts_to(reply, n) && n == turns_of(store.sessions)
    &&& s.sql == SESSION_ROUTING@ ==> enumerates(
        reply,
        |row: Seq<SqlV>|
            exists|i: int|
                0 <= i < store.sessions.len() && (#[trigger] store.sessions[i]).node_id == id && row == seq![
                    SqlV::Text(store.sessions[i].user_id),
                    SqlV::Text(store.sessions[i].channel),
                ],
    )
}

/// What a store answers to a query.
pub open spec fn reads(store: StoreV, s: StatementV, reply: ReplyV) -> bool {
    &&& reads_nodes(store, s, reply)
    &&& reads_edges(store, s, reply)
    &&& reads_sessions(store, s, reply)
}

/// One exchange takes a store to the next. Queries, compilation, the creation of
/// tables, and what failed leave it as it was.
pub open spec fn does(before: StoreV, e: Exchange, after: StoreV) -> bool {
    match e.reply {
        ReplyV::Changed(Ok(n)) => writes(before, e.statement, n, after),
        ReplyV::Rows(Ok(_)) => after == before && reads(before, e.statement, e.reply),
        _ => after == before,
    }
}

/// The exchanges of a log take each store to the next.
pub open spec fn passes(stores: Seq<StoreV>, log: Seq<Exchange>) -> bool {
    &&& stores.len() == log.len() + 1
    &&& forall|i: int| 0 <= i < log.len() ==> does(stores[i], #[trigger] log[i], stores[i + 1])
}

/// A log takes a store to another one.
pub open spec fn runs(before: StoreV, log: Seq<Exchange>, after: StoreV) -> bool {
    exists|stores: Seq<StoreV>| #[trigger]
        passes(stores, log) && stores.first() == before && stores.last() == after
}

/// A log is its first exchanges and the rest.
pub proof fn lemma_runs_split(before: StoreV, log: Seq<Exchange>, after: StoreV, at: int) -> (middle: StoreV)
    requires
        runs(before, log, after),
        0 <= at <= log.len(),
    ensures
        runs(before, log.take(at), middle),
        runs(middle, log.skip(at), after),
{
    let stores = choose|stores: Seq<StoreV>| #[trigger]
        passes(stores, log) && stores.first() == before && stores.last() == after;
    let head = stores.take(at + 1);
    let tail = stores.skip(at);
    assert forall|i: int| 0 <= i < log.take(at).len() implies does(head[i], #[trigger] log.take(at)[i], head[i + 1]) by {
        assert(log[i] == log.take(at)[i]);
    }
    assert forall|i: int| 0 <= i < log.skip(at).len() implies does(tail[i], #[trigger] log.skip(at)[i], tail[i + 1]) by {
        assert(log[i + at] == log.skip(at)[i]);
    }
    assert(passes(head, log.take(at)));
    assert(passes(tail, log.skip(at)));
    stores[at]
}

/// A log of one exchange.
pub proof fn lemma_runs_one(before: StoreV, log: Seq<Exchange>, after: StoreV)
    requires
        runs(before, log, after),
        log.len() == 1,
    ensures
        does(before, log[0], after),
{
    let stores = choose|stores: Seq<StoreV>| #[trigger]
        passes(stores, log) && stores.first() == before && stores.last() == after;
    assert(does(stores[0], log[0], stores[1]));
}

/// A log of two exchanges.
pub proof fn lemma_runs_two(before: StoreV, log: Seq<Exchange>, after: StoreV) -> (middle: StoreV)
    requires
        runs(before, log, after),
        log.len() == 2,
    ensures
        does(before, log[0], middle),
        does(middle, log[1], after),
{
    let stores = choose|stores: Seq<StoreV>| #[trigger]
        passes(stores, log) && stores.first() == before && stores.last() == after;
    assert(does(stores[0], log[0], stores[1]));
    assert(does(stores[1], log[1], stores[2]));
    stores[1]
}

/// A log of nothing.
pub proof fn lemma_runs_none(before: StoreV, log: Seq<Exchange>, after: StoreV)
    requires
        runs(before, log, after),
        log.len() == 0,
    ensures
        before == after,
{
    let stores = choose|stores: Seq<StoreV>| #[trigger]
        passes(stores, log) && stores.first() == before && stores.last() == after;
}

/// Rows that are read one for one.
pub proof fn lemma_answers_read<T>(
    reply: ReplyV,
    values: Seq<T>,
    cells: spec_fn(T) -> Seq<SqlV>,
    read: spec_fn(Seq<SqlV>) -> Read<T>,
)
    requires
        answers(reply, values.map_values(cells)),
        forall|i: int| 0 <= i < values.len() ==> read(cells(#[trigger] values[i])) == Read::<T>::Ok(values[i]),
    ensures
        all_of(reply, read) == Read::<Seq<T>>::Ok(values),
        first_of(reply, read) == Read::<Option<T>>::Ok(
            if values.len() == 0 {
                None
            } else {
                Some(values[0])
            },
        ),
    decreases values.len(),
{
    let rows = values.map_values(cells).map_values(|row: Seq<SqlV>| RowV::Ok(row));
    if values.len() > 0 {
        let rest = values.drop_last();
        let fewer = rest.map_values(cells).map_values(|row: Seq<SqlV>| RowV::Ok(row));
        assert forall|i: int| 0 <= i < rest.len() implies read(cells(#[trigger] rest[i])) == Read::<T>::Ok(rest[i]) by {
            assert(rest[i] == values[i]);
        }
        lemma_answers_read(ReplyV::Rows(Ok(fewer)), rest, cells, read);
        assert(rows.drop_last() =~= fewer);
        assert(read(cells(values[values.len() - 1])) is Ok);
        assert(rest.push(values.last()) =~= values);
        assert(read_all(rows, read) == Read::<Seq<T>>::Ok(values));
        assert(read(cells(values[0])) is Ok);
    } else {
        assert(values =~= Seq::<T>::empty());
    }
}

}
