//! The database: what a statement carries, what it answers, and the record of
//! every exchange with a connection.
//!
//! A database file is shared with the disk and with other processes, so nothing
//! is claimed of what it answers. What the library asks, and what it makes of
//! each answer, is fixed: contracts speak of the `history` of a connection.

pub mod params;
pub mod queries;
pub mod rows;
pub mod tree;

use rusqlite::types::{FromSql, Value, ValueRef};
use rusqlite::Connection;
use vstd::prelude::*;

use crate::error::{CortexError, FaultV, Result};

verus! {

/// `rusqlite::Connection`, carried as it came.
#[verifier::external_type_specification]
#[verifier::external_body]
pub struct ExConnection(rusqlite::Connection);

/// `rusqlite::types::Value`, carried as it came.
#[verifier::external_type_specification]
#[verifier::external_body]
pub struct ExValue(rusqlite::types::Value);

/// A value that a statement binds or a row holds. A real number is held by the
/// bits of its IEEE 754 double.
#[derive(Debug, PartialEq, Eq)]
pub enum SqlValue {
    Null,
    Integer(i64),
    Real(u64),
    Text(String),
    Blob(Vec<u8>),
}

/// What an SQL value says.
pub enum SqlV {
    Null,
    Integer(i64),
    Real(u64),
    Text(Seq<char>),
    Blob(Seq<u8>),
}

impl DeepView for SqlValue {
    type V = SqlV;

    open spec fn deep_view(&self) -> SqlV {
        match *self {
            SqlValue::Null => SqlV::Null,
            SqlValue::Integer(i) => SqlV::Integer(i),
            SqlValue::Real(bits) => SqlV::Real(bits),
            SqlValue::Text(text) => SqlV::Text(text@),
            SqlValue::Blob(bytes) => SqlV::Blob(bytes@),
        }
    }
}

/// The type of an SQL value.
#[derive(Debug, Clone, Copy, PartialEq, Eq, Structural)]
pub enum SqlType {
    Null,
    Integer,
    Real,
    Text,
    Blob,
}

/// The name under which a type is shown.
pub open spec fn sql_type_name(t: SqlType) -> Seq<char> {
    match t {
        SqlType::Null => "Null"@,
        SqlType::Integer => "Integer"@,
        SqlType::Real => "Real"@,
        SqlType::Text => "Text"@,
        SqlType::Blob => "Blob"@,
    }
}

/// The type of a value.
pub open spec fn type_of(value: SqlV) -> SqlType {
    match value {
        SqlV::Null => SqlType::Null,
        SqlV::Integer(_) => SqlType::Integer,
        SqlV::Real(_) => SqlType::Real,
        SqlV::Text(_) => SqlType::Text,
        SqlV::Blob(_) => SqlType::Blob,
    }
}

impl SqlType {
    /// The name under which the type is shown.
    pub fn name(self) -> (r: &'static str)
        ensures
            r@ == sql_type_name(self),
    {
        match self {
            SqlType::Null => "Null",
            SqlType::Integer => "Integer",
            SqlType::Real => "Real",
            SqlType::Text => "Text",
            SqlType::Blob => "Blob",
        }
    }
}

impl SqlValue {
    /// The type of the value.
    pub fn sql_type(&self) -> (r: SqlType)
        ensures
            r == type_of(self.deep_view()),
    {
        match self {
            SqlValue::Null => SqlType::Null,
            SqlValue::Integer(_) => SqlType::Integer,
            SqlValue::Real(_) => SqlType::Real,
            SqlValue::Text(_) => SqlType::Text,
            SqlValue::Blob(_) => SqlType::Blob,
        }
    }
}

/// A row: the values of its columns.
pub type Row = Vec<SqlValue>;

/// What a row says, or why it could not be read.
pub type RowV = core::result::Result<Seq<SqlV>, rusqlite::Error>;

/// A statement with the values of its parameters, `?1` first.
pub struct StatementV {
    pub sql: Seq<char>,
    pub params: Seq<SqlV>,
}

/// A statement with a text and the values of its parameters.
pub open spec fn statement(sql: Seq<char>, params: Seq<SqlV>) -> StatementV {
    StatementV { sql, params }
}

/// What a connection answered.
pub enum ReplyV {
    /// To being opened: the path of its file, if it has one.
    Opened(Option<Seq<char>>),
    /// To a statement that changes rows: how many it changed.
    Changed(core::result::Result<usize, rusqlite::Error>),
    /// To a query: its rows, each with what it says or why it could not be read.
    Rows(core::result::Result<Seq<RowV>, rusqlite::Error>),
    /// To a script that was run.
    Done(core::result::Result<(), rusqlite::Error>),
    /// To a statement that was compiled and not run.
    Compiled(core::result::Result<(), rusqlite::Error>),
}

/// One statement and the answer to it.
pub struct Exchange {
    pub statement: StatementV,
    pub reply: ReplyV,
}

/// The exchange that a history starts with: the connection is opened on a file,
/// or in memory.
pub open spec fn opening(path: Option<Seq<char>>) -> Exchange {
    Exchange { statement: statement(Seq::empty(), Seq::empty()), reply: ReplyV::Opened(path) }
}

/// What an SQLite value of `rusqlite` holds.
pub uninterp spec fn cell(value: Value) -> SqlV;

/// The exchanges of a connection so far, oldest first.
pub uninterp spec fn history(conn: Connection) -> Seq<Exchange>;

/// The double nearest to an integer, as `<f64 as FromSql>::column_result` gives
/// it for an integer column.
pub uninterp spec fn real_of(n: i64) -> u64;

/// What the values of a list hold.
pub open spec fn cells(values: Seq<Value>) -> Seq<SqlV> {
    values.map_values(|v: Value| cell(v))
}

/// What the rows of an answer hold.
pub open spec fn row_cells(rows: Seq<core::result::Result<Vec<Value>, rusqlite::Error>>) -> Seq<RowV> {
    rows.map_values(
        |row: core::result::Result<Vec<Value>, rusqlite::Error>|
            match row {
                Ok(values) => Ok(cells(values@)),
                Err(e) => Err(e),
            },
    )
}

/// What a list of rows says.
pub open spec fn row_views(rows: Seq<core::result::Result<Row, rusqlite::Error>>) -> Seq<RowV> {
    rows.map_values(
        |row: core::result::Result<Row, rusqlite::Error>|
            match row {
                Ok(values) => Ok(values.deep_view()),
                Err(e) => Err(e),
            },
    )
}

/// Copies an SQL value into a `rusqlite::types::Value`, variant by variant.
#[verifier::external_body]
fn to_cell(value: &SqlValue) -> (r: Value)
    ensures
        cell(r) == value.deep_view(),
{
    match value {
        SqlValue::Null => Value::Null,
        SqlValue::Integer(i) => Value::Integer(*i),
        SqlValue::Real(bits) => Value::Real(bytemuck::cast(*bits)),
        SqlValue::Text(text) => Value::Text(text.clone()),
        SqlValue::Blob(bytes) => Value::Blob(bytes.clone()),
    }
}

/// Copies a `rusqlite::types::Value` into an SQL value, variant by variant.
#[verifier::external_body]
fn from_cell(value: &Value) -> (r: SqlValue)
    ensures
        r.deep_view() == cell(*value),
{
    match value {
        Value::Null => SqlValue::Null,
        Value::Integer(i) => SqlValue::Integer(*i),
        Value::Real(x) => SqlValue::Real(x.to_bits()),
        Value::Text(text) => SqlValue::Text(text.clone()),
        Value::Blob(bytes) => SqlValue::Blob(bytes.clone()),
    }
}

/// `<f64 as FromSql>::column_result` on an integer: the double nearest to it.
#[verifier::external_body]
fn real_from_integer(n: i64) -> (bits: u64)
    ensures
        bits == real_of(n),
{
    match FromSql::column_result(ValueRef::Integer(n)).map(Value::Real) {
        Ok(Value::Real(x)) => x.to_bits(),
        _ => 0,
    }
}

/// `Connection::open`: a connection on the file with that path, asked nothing yet.
/// Whether the file can be opened depends on the disk.
#[verifier::external_body]
fn open_file(path: &str) -> (r: core::result::Result<Connection, rusqlite::Error>)
    ensures
        r matches Ok(conn) ==> history(conn) == seq![opening(Some(path@))],
{
    Connection::open(path)
}

/// `Connection::open_in_memory`: a connection without a file, asked nothing yet.
#[verifier::external_body]
fn open_in_memory() -> (r: core::result::Result<Connection, rusqlite::Error>)
    ensures
        r matches Ok(conn) ==> history(conn) == seq![opening(None)],
{
    Connection::open_in_memory()
}

/// `Connection::execute`: the statement and the answer join the history. How
/// many rows change, or whether it fails, depends on the database.
#[verifier::external_body]
fn run_execute(conn: &mut Connection, sql: &str, params: &Vec<Value>) -> (r: core::result::Result<
    usize,
    rusqlite::Error,
>)
    ensures
        history(*final(conn)) == history(*old(conn)).push(
            Exchange { statement: StatementV { sql: sql@, params: cells(params@) }, reply: ReplyV::Changed(r) },
        ),
{
    conn.execute(sql, rusqlite::params_from_iter(params))
}

/// `Connection::prepare` and `Statement::query_map`: the query and all its rows
/// join the history. The rows depend on the database.
#[verifier::external_body]
fn run_query(conn: &mut Connection, sql: &str, params: &Vec<Value>) -> (r: core::result::Result<
    Vec<core::result::Result<Vec<Value>, rusqlite::Error>>,
    rusqlite::Error,
>)
    ensures
        history(*final(conn)) == history(*old(conn)).push(
            Exchange {
                statement: StatementV { sql: sql@, params: cells(params@) },
                reply: ReplyV::Rows(
                    match r {
                        Ok(rows) => Ok(row_cells(rows@)),
                        Err(e) => Err(e),
                    },
                ),
            },
        ),
{
    let mut stmt = conn.prepare(sql)?;
    let rows = stmt.query_map(rusqlite::params_from_iter(params), |row| {
        (0..row.as_ref().column_count()).map(|i| row.get(i)).collect()
    })?;
    Ok(rows.collect())
}

/// `Connection::execute_batch`: the script is run, and joins the history with the
/// answer.
#[verifier::external_body]
fn run_script(conn: &mut Connection, sql: &str) -> (r: core::result::Result<(), rusqlite::Error>)
    ensures
        history(*final(conn)) == history(*old(conn)).push(
            Exchange { statement: StatementV { sql: sql@, params: Seq::empty() }, reply: ReplyV::Done(r) },
        ),
{
    conn.execute_batch(sql)
}

/// `Connection::prepare`: the text is compiled and not run, and joins the history
/// with the answer. Whether it can be compiled depends on the database.
#[verifier::external_body]
fn run_prepare(conn: &mut Connection, sql: &str) -> (r: core::result::Result<(), rusqlite::Error>)
    ensures
        history(*final(conn)) == history(*old(conn)).push(
            Exchange { statement: StatementV { sql: sql@, params: Seq::empty() }, reply: ReplyV::Compiled(r) },
        ),
{
    conn.prepare(sql).map(drop)
}

/// `after` continues the history `before`.
pub open spec fn continues(before: Seq<Exchange>, after: Seq<Exchange>) -> bool {
    before.is_prefix_of(after)
}

/// The exchanges by which `after` continues the history `before`.
pub open spec fn since(before: Seq<Exchange>, after: Seq<Exchange>) -> Seq<Exchange> {
    after.skip(before.len() as int)
}

/// Every one of the statements ran, in order, and went through.
pub open spec fn went_through(log: Seq<Exchange>, statements: Seq<StatementV>) -> bool {
    &&& log.len() == statements.len()
    &&& forall|i: int|
        0 <= i < log.len() ==> {
            &&& (#[trigger] log[i]).statement == statements[i]
            &&& log[i].reply is Changed
            &&& completed(log[i].reply) is Ok
        }
}

/// The statements ran in order up to the first that failed, with the fault `f`.
pub open spec fn broke_off(log: Seq<Exchange>, statements: Seq<StatementV>, f: FaultV) -> bool {
    &&& 0 < log.len() <= statements.len()
    &&& went_through(log.drop_last(), statements.take(log.len() - 1))
    &&& log.last().statement == statements[log.len() - 1]
    &&& log.last().reply is Changed
    &&& completed(log.last().reply) == core::result::Result::<(), FaultV>::Err(f)
}

/// The statements ran in order, all of them or up to the first that failed.
pub open spec fn ran(
    log: Seq<Exchange>,
    statements: Seq<StatementV>,
    r: core::result::Result<(), FaultV>,
) -> bool {
    match r {
        Ok(_) => went_through(log, statements),
        Err(f) => broke_off(log, statements, f),
    }
}

/// A list of statements that went through, and one more statement.
pub proof fn lemma_ran_step(log: Seq<Exchange>, statements: Seq<StatementV>, next: Exchange)
    requires
        log.len() < statements.len(),
        went_through(log, statements.take(log.len() as int)),
        next.statement == statements[log.len() as int],
        next.reply is Changed,
    ensures
        completed(next.reply) is Ok ==> went_through(log.push(next), statements.take(log.len() as int + 1)),
        completed(next.reply) matches Err(f) ==> broke_off(log.push(next), statements, f),
{
    let all = log.push(next);
    assert(all.drop_last() =~= log);
    if completed(next.reply) is Ok {
        assert forall|i: int| 0 <= i < all.len() implies {
            &&& (#[trigger] all[i]).statement == statements.take(log.len() as int + 1)[i]
            &&& all[i].reply is Changed
            &&& completed(all[i].reply) is Ok
        } by {
            if i < log.len() {
                assert(all[i] == log[i]);
                assert(statements.take(log.len() as int)[i] == statements[i]);
            }
        }
    }
}

/// Two lists of statements, run one after the other.
pub proof fn lemma_ran_join(
    first: Seq<Exchange>,
    second: Seq<Exchange>,
    head: Seq<StatementV>,
    tail: Seq<StatementV>,
    r: core::result::Result<(), FaultV>,
)
    requires
        went_through(first, head),
        ran(second, tail, r),
    ensures
        ran(first + second, head + tail, r),
{
    let log = first + second;
    let all = head + tail;
    match r {
        Ok(_) => {
            assert forall|i: int| 0 <= i < log.len() implies {
                &&& (#[trigger] log[i]).statement == all[i]
                &&& log[i].reply is Changed
                &&& completed(log[i].reply) is Ok
            } by {
                if i < first.len() {
                    assert(log[i] == first[i]);
                } else {
                    assert(log[i] == second[i - first.len()]);
                }
            }
        },
        Err(f) => {
            let upto = log.drop_last();
            assert(log.last() == second.last());
            assert forall|i: int| 0 <= i < upto.len() implies {
                &&& (#[trigger] upto[i]).statement == all.take(log.len() - 1)[i]
                &&& upto[i].reply is Changed
                &&& completed(upto[i].reply) is Ok
            } by {
                if i < first.len() {
                    assert(upto[i] == first[i]);
                } else {
                    assert(upto[i] == second.drop_last()[i - first.len()]);
                }
            }
        },
    }
}

/// A list of statements that broke off breaks off the same with more to come.
pub proof fn lemma_broke_off_early(log: Seq<Exchange>, head: Seq<StatementV>, tail: Seq<StatementV>, f: FaultV)
    requires
        broke_off(log, head, f),
    ensures
        broke_off(log, head + tail, f),
{
    assert((head + tail).take(log.len() - 1) =~= head.take(log.len() - 1));
}

/// One more exchange joins those since `start`.
pub proof fn lemma_since_step(start: Seq<Exchange>, before: Seq<Exchange>, after: Seq<Exchange>)
    requires
        continues(start, before),
        after.len() == before.len() + 1,
        after.drop_last() == before,
    ensures
        continues(start, after),
        since(start, after) == since(start, before).push(after.last()),
{
    assert(since(start, after) =~= since(start, before).push(after.last()));
    assert(start =~= after.subrange(0, start.len() as int));
}

/// Exchanges since `start` are those up to some moment and those after it.
pub proof fn lemma_since_join(start: Seq<Exchange>, middle: Seq<Exchange>, end: Seq<Exchange>)
    requires
        continues(start, middle),
        continues(middle, end),
    ensures
        continues(start, end),
        since(start, end) == since(start, middle) + since(middle, end),
{
    assert(middle =~= end.subrange(0, middle.len() as int));
    assert(start =~= end.subrange(0, start.len() as int));
    assert(since(start, end) =~= since(start, middle) + since(middle, end));
}

/// The history grew by exactly one exchange, on the statement `s`.
pub open spec fn asked(before: Seq<Exchange>, after: Seq<Exchange>, s: StatementV) -> bool {
    &&& after.len() == before.len() + 1
    &&& after.drop_last() == before
    &&& after.last().statement == s
}

/// The history grew by one statement that changes rows.
pub open spec fn executed(before: Seq<Exchange>, after: Seq<Exchange>, s: StatementV) -> bool {
    asked(before, after, s) && after.last().reply is Changed
}

/// The history grew by one query.
pub open spec fn queried(before: Seq<Exchange>, after: Seq<Exchange>, s: StatementV) -> bool {
    asked(before, after, s) && after.last().reply is Rows
}

/// The history grew by one statement that was compiled and not run.
pub open spec fn compiled(before: Seq<Exchange>, after: Seq<Exchange>, sql: Seq<char>) -> bool {
    asked(before, after, StatementV { sql, params: Seq::empty() }) && after.last().reply is Compiled
}

/// The history grew by one script that was run.
pub open spec fn scripted(before: Seq<Exchange>, after: Seq<Exchange>, sql: Seq<char>) -> bool {
    asked(before, after, StatementV { sql, params: Seq::empty() }) && after.last().reply is Done
}

/// How many rows a statement changed, from the answer to it.
pub open spec fn changed(reply: ReplyV) -> core::result::Result<usize, FaultV> {
    match reply {
        ReplyV::Changed(Ok(n)) => Ok(n),
        ReplyV::Changed(Err(e)) => Err(FaultV::Sqlite(e)),
        _ => Err(FaultV::NoRow),
    }
}

/// The rows of a query, from the answer to it.
pub open spec fn rows_of(reply: ReplyV) -> core::result::Result<Seq<RowV>, FaultV> {
    match reply {
        ReplyV::Rows(Ok(rows)) => Ok(rows),
        ReplyV::Rows(Err(e)) => Err(FaultV::Sqlite(e)),
        _ => Err(FaultV::NoRow),
    }
}

/// Whether a script or a statement went through, from the answer to it.
pub open spec fn completed(reply: ReplyV) -> core::result::Result<(), FaultV> {
    match reply {
        ReplyV::Done(Ok(_)) | ReplyV::Compiled(Ok(_)) | ReplyV::Changed(Ok(_)) => Ok(()),
        ReplyV::Done(Err(e)) | ReplyV::Compiled(Err(e)) | ReplyV::Changed(Err(e)) => Err(FaultV::Sqlite(e)),
        _ => Err(FaultV::NoRow),
    }
}

/// Copies the values of a statement's parameters.
fn bind(params: &Vec<SqlValue>) -> (r: Vec<Value>)
    ensures
        cells(r@) == params.deep_view(),
{
    let mut r: Vec<Value> = Vec::new();
    let mut i: usize = 0;
    while i < params.len()
        invariant
            i <= params.len(),
            r.len() == i,
            forall|j: int| 0 <= j < i ==> cell(#[trigger] r[j]) == params[j].deep_view(),
        decreases params.len() - i,
    {
        r.push(to_cell(&params[i]));
        i = i + 1;
    }
    assert(cells(r@) =~= params.deep_view());
    r
}

/// Copies the values of a row.
fn read_row(values: &Vec<Value>) -> (r: Row)
    ensures
        r.deep_view() == cells(values@),
{
    let mut r: Row = Vec::new();
    let mut i: usize = 0;
    while i < values.len()
        invariant
            i <= values.len(),
            r.len() == i,
            forall|j: int| 0 <= j < i ==> (#[trigger] r[j]).deep_view() == cell(values[j]),
        decreases values.len() - i,
    {
        r.push(from_cell(&values[i]));
        i = i + 1;
    }
    assert(r.deep_view() =~= cells(values@));
    r
}

/// Runs a statement that changes rows. Returns how many it changed.
pub fn execute(conn: &mut Connection, sql: &str, params: Vec<SqlValue>) -> (r: Result<usize>)
    ensures
        executed(history(*old(conn)), history(*final(conn)), StatementV { sql: sql@, params: params.deep_view() }),
        crate::error::outcome(r) == changed(history(*final(conn)).last().reply),
{
    let values = bind(&params);
    let ghost before = history(*conn);
    let r = run_execute(conn, sql, &values);
    assert(history(*conn).drop_last() =~= before);
    match r {
        Ok(n) => Ok(n),
        Err(e) => Err(CortexError::Sqlite(e)),
    }
}

/// Runs a statement for its effect alone.
pub fn run(conn: &mut Connection, sql: &str, params: Vec<SqlValue>) -> (r: Result<()>)
    ensures
        executed(history(*old(conn)), history(*final(conn)), statement(sql@, params.deep_view())),
        crate::error::done(r) == completed(history(*final(conn)).last().reply),
{
    match execute(conn, sql, params) {
        Ok(_) => Ok(()),
        Err(e) => Err(e),
    }
}

/// Runs a query. Returns its rows.
pub fn query(conn: &mut Connection, sql: &str, params: Vec<SqlValue>) -> (r: Result<
    Vec<core::result::Result<Row, rusqlite::Error>>,
>)
    ensures
        queried(history(*old(conn)), history(*final(conn)), StatementV { sql: sql@, params: params.deep_view() }),
        match r {
            Ok(rows) => rows_of(history(*final(conn)).last().reply) == core::result::Result::<_, FaultV>::Ok(
                row_views(rows@),
            ),
            Err(e) => rows_of(history(*final(conn)).last().reply) == core::result::Result::<Seq<RowV>, _>::Err(
                e.deep_view(),
            ),
        },
{
    let values = bind(&params);
    let ghost before = history(*conn);
    let r = run_query(conn, sql, &values);
    assert(history(*conn).drop_last() =~= before);
    match r {
        Ok(found) => {
            let ghost all = found@;
            let mut rows: Vec<core::result::Result<Row, rusqlite::Error>> = Vec::new();
            for row in iter: found
                invariant
                    iter.seq() == all,
                    row_views(rows@) == row_cells(all.take(iter.index() as int)),
            {
                let ghost had = rows@;
                match row {
                    Ok(values) => {
                        rows.push(Ok(read_row(&values)));
                    },
                    Err(e) => {
                        rows.push(Err(e));
                    },
                }
                assert(row_views(rows@) =~= row_views(had).push(row_views(rows@).last()));
                assert(row_cells(all.take(iter.index() + 1)) =~= row_cells(all.take(iter.index() as int)).push(
                    row_cells(all)[iter.index() as int],
                ));
            }
            assert(all.take(all.len() as int) =~= all);
            Ok(rows)
        },
        Err(e) => Err(CortexError::Sqlite(e)),
    }
}

/// Runs a script of statements without parameters.
pub fn script(conn: &mut Connection, sql: &str) -> (r: Result<()>)
    ensures
        scripted(history(*old(conn)), history(*final(conn)), sql@),
        crate::error::done(r) == completed(history(*final(conn)).last().reply),
{
    let ghost before = history(*conn);
    let r = run_script(conn, sql);
    assert(history(*conn).drop_last() =~= before);
    match r {
        Ok(_) => Ok(()),
        Err(e) => Err(CortexError::Sqlite(e)),
    }
}

/// Compiles a statement without running it.
pub fn prepare(conn: &mut Connection, sql: &str) -> (r: Result<()>)
    ensures
        compiled(history(*old(conn)), history(*final(conn)), sql@),
        crate::error::done(r) == completed(history(*final(conn)).last().reply),
{
    let ghost before = history(*conn);
    let r = run_prepare(conn, sql);
    assert(history(*conn).drop_last() =~= before);
    match r {
        Ok(_) => Ok(()),
        Err(e) => Err(CortexError::Sqlite(e)),
    }
}

/// The tables of the graph.
pub const SCHEMA: &'static str = "CREATE TABLE IF NOT EXISTS nodes (
    id           TEXT PRIMARY KEY,
    kind         TEXT NOT NULL,
    title        TEXT NOT NULL,
    body         TEXT,
    importance   REAL NOT NULL,
    trust_score  REAL NOT NULL,
    access_count INTEGER NOT NULL DEFAULT 0,
    created_at   INTEGER NOT NULL,
    last_access  INTEGER,
    decay_rate   REAL NOT NULL,
    embedding    BLOB
);

CREATE INDEX IF NOT EXISTS idx_nodes_kind ON nodes(kind);

CREATE TABLE IF NOT EXISTS edges (
    id         TEXT PRIMARY KEY,
    src        TEXT NOT NULL,
    dst        TEXT NOT NULL,
    kind       TEXT NOT NULL,
    weight     REAL NOT NULL,
    created_at INTEGER NOT NULL,
    metadata   TEXT
);

CREATE INDEX IF NOT EXISTS idx_edges_src ON edges(src);
CREATE INDEX IF NOT EXISTS idx_edges_dst ON edges(dst);

CREATE TABLE IF NOT EXISTS contradictions (
    node_a      TEXT NOT NULL,
    node_b      TEXT NOT NULL,
    detected_at INTEGER NOT NULL,
    resolved    INTEGER NOT NULL DEFAULT 0,
    PRIMARY KEY (node_a, node_b)
);

CREATE TABLE IF NOT EXISTS meta (
    key   TEXT PRIMARY KEY,
    value TEXT NOT NULL
);";

/// A connection on a file, or in memory, that has created the tables of the graph
/// and was asked nothing else.
pub open spec fn ready(conn: Connection, path: Option<Seq<char>>) -> bool {
    &&& history(conn).len() == 2
    &&& history(conn)[0] == opening(path)
    &&& history(conn)[1].statement == statement(SCHEMA@, Seq::empty())
    &&& history(conn)[1].reply is Done
    &&& completed(history(conn)[1].reply) is Ok
}

/// What comes of a connection that was opened, or not: its tables are created, and
/// it is handed on where that went through.
pub open spec fn sets_up(opened: core::result::Result<Connection, rusqlite::Error>, r: Result<Connection>) -> bool {
    match opened {
        Err(e) => r matches Err(x) && x.deep_view() == FaultV::Sqlite(e),
        Ok(fresh) => exists|tried: Connection| #[trigger]
            scripted(history(fresh), history(tried), SCHEMA@) && match completed(history(tried).last().reply) {
                Ok(_) => r matches Ok(conn) && conn == tried,
                Err(f) => r matches Err(x) && x.deep_view() == f,
            },
    }
}

/// Creates the tables of the graph on a connection that was opened.
pub fn create_schema(opened: core::result::Result<Connection, rusqlite::Error>) -> (r: Result<Connection>)
    ensures
        sets_up(opened, r),
{
    match opened {
        Ok(conn) => {
            let mut conn = conn;
            let created = script(&mut conn, SCHEMA);
            assert(scripted(history(opened->Ok_0), history(conn), SCHEMA@));
            match created {
                Ok(_) => Ok(conn),
                Err(e) => Err(e),
            }
        },
        Err(e) => Err(CortexError::Sqlite(e)),
    }
}

/// What opening a database comes to: an attempt on the file with that path, or in
/// memory, and what comes of it. Whether the attempt succeeds depends on the disk.
pub open spec fn opens(path: Option<Seq<char>>, r: Result<Connection>) -> bool {
    exists|opened: core::result::Result<Connection, rusqlite::Error>| #[trigger]
        attempted(path, opened) && sets_up(opened, r)
}

/// An attempt to open a connection on the file with a path, or in memory.
pub open spec fn attempted(
    path: Option<Seq<char>>,
    opened: core::result::Result<Connection, rusqlite::Error>,
) -> bool {
    opened matches Ok(conn) ==> history(conn) == seq![opening(path)]
}

/// A database that was opened is ready, and one that was not is so for SQLite.
pub proof fn law_opened_is_ready(path: Option<Seq<char>>, r: Result<Connection>)
    requires
        opens(path, r),
    ensures
        match r {
            Ok(conn) => ready(conn, path),
            Err(e) => e is Sqlite,
        },
{
    if let Ok(conn) = r {
        assert(history(conn).drop_last()[0] == history(conn)[0]);
    }
}

/// Opens a database file, or creates it, with the tables of the graph in it.
/// Whether that is possible depends on the disk.
pub fn open(path: &str) -> (r: Result<Connection>)
    ensures
        opens(Some(path@), r),
        match r {
            Ok(conn) => ready(conn, Some(path@)),
            Err(e) => e is Sqlite,
        },
{
    let opened = open_file(path);
    assert(attempted(Some(path@), opened));
    let r = create_schema(opened);
    proof {
        law_opened_is_ready(Some(path@), r);
    }
    r
}

/// Opens a database in memory, with the tables of the graph in it.
pub fn open_memory() -> (r: Result<Connection>)
    ensures
        opens(None, r),
        match r {
            Ok(conn) => ready(conn, None),
            Err(e) => e is Sqlite,
        },
{
    let opened = open_in_memory();
    assert(attempted(None, opened));
    let r = create_schema(opened);
    proof {
        law_opened_is_ready(None, r);
    }
    r
}

}
