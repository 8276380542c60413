//! Reading rows: columns by their type, then nodes, edges and contradictions.

use rusqlite::Connection;
use vstd::prelude::*;

use super::params::{edge_cells, node_cells};
use super::{
    history, queried, query, real_from_integer, real_of, row_views, rows_of, type_of, ReplyV, Row, RowV, SqlV, SqlValue,
    StatementV,
};
use crate::error::{outcome, CortexError, FaultV, Result};
use crate::types::{
    lemma_edge_kind_name_reads_back, lemma_node_kind_name_reads_back, named_edge_kind, named_node_kind,
    ContradictionPair, ContradictionV, Edge, EdgeKind, EdgeV, Node, NodeKind, NodeV, RealBits,
};

verus! {

/// The outcome of reading something: what it says, or why it cannot be read.
pub type Read<T> = core::result::Result<T, FaultV>;

/// The fault of a column `i`, of the name `name`, that holds another type than the
/// one read, or that is missing.
pub open spec fn wrong_column(row: Seq<SqlV>, i: usize, name: Seq<char>) -> FaultV {
    FaultV::Column {
        index: i,
        name,
        found: if i < row.len() {
            Some(type_of(row[i as int]))
        } else {
            None
        },
    }
}

/// The error of a column that holds another type than the one read, or that is
/// missing.
fn column_error(row: &Row, i: usize, name: &'static str) -> (r: CortexError)
    ensures
        r.deep_view() == wrong_column(row.deep_view(), i, name@),
{
    CortexError::Column {
        index: i,
        name,
        found: if i < row.len() {
            Some(row[i].sql_type())
        } else {
            None
        },
    }
}

/// The column `i` of a row, as text. `name` is the name of the column in its query.
pub open spec fn text_column(row: Seq<SqlV>, i: usize, name: Seq<char>) -> Read<Seq<char>> {
    if i < row.len() && row[i as int] is Text {
        Ok(row[i as int]->Text_0)
    } else {
        Err(wrong_column(row, i, name))
    }
}

/// The column `i` of a row, as text or null.
pub open spec fn optional_text_column(row: Seq<SqlV>, i: usize, name: Seq<char>) -> Read<Option<Seq<char>>> {
    if i < row.len() && row[i as int] is Null {
        Ok(None)
    } else if i < row.len() && row[i as int] is Text {
        Ok(Some(row[i as int]->Text_0))
    } else {
        Err(wrong_column(row, i, name))
    }
}

/// The column `i` of a row, as an integer.
pub open spec fn integer_column(row: Seq<SqlV>, i: usize, name: Seq<char>) -> Read<i64> {
    if i < row.len() && row[i as int] is Integer {
        Ok(row[i as int]->Integer_0)
    } else {
        Err(wrong_column(row, i, name))
    }
}

/// The column `i` of a row, as an integer or null.
pub open spec fn optional_integer_column(row: Seq<SqlV>, i: usize, name: Seq<char>) -> Read<Option<i64>> {
    if i < row.len() && row[i as int] is Null {
        Ok(None)
    } else if i < row.len() && row[i as int] is Integer {
        Ok(Some(row[i as int]->Integer_0))
    } else {
        Err(wrong_column(row, i, name))
    }
}

/// The column `i` of a row, as a real number; an integer is taken as the double
/// nearest to it.
pub open spec fn real_column(row: Seq<SqlV>, i: usize, name: Seq<char>) -> Read<RealBits> {
    if i < row.len() && row[i as int] is Real {
        Ok(row[i as int]->Real_0)
    } else if i < row.len() && row[i as int] is Integer {
        Ok(real_of(row[i as int]->Integer_0))
    } else {
        Err(wrong_column(row, i, name))
    }
}

/// The column `i` of a row, as bytes or null.
pub open spec fn optional_blob_column(row: Seq<SqlV>, i: usize, name: Seq<char>) -> Read<Option<Seq<u8>>> {
    if i < row.len() && row[i as int] is Null {
        Ok(None)
    } else if i < row.len() && row[i as int] is Blob {
        Ok(Some(row[i as int]->Blob_0))
    } else {
        Err(wrong_column(row, i, name))
    }
}

/// The column `i` of a row, as bytes.
pub open spec fn blob_column(row: Seq<SqlV>, i: usize, name: Seq<char>) -> Read<Seq<u8>> {
    if i < row.len() && row[i as int] is Blob {
        Ok(row[i as int]->Blob_0)
    } else {
        Err(wrong_column(row, i, name))
    }
}

/// Reads the column `i` of a row, as text.
pub fn read_text(row: &Row, i: usize, name: &'static str) -> (r: Result<String>)
    ensures
        outcome(r) == text_column(row.deep_view(), i, name@),
{
    if i < row.len() {
        if let SqlValue::Text(t) = &row[i] {
            return Ok(t.clone());
        }
    }
    Err(column_error(row, i, name))
}

/// Reads the column `i` of a row, as text or null.
pub fn read_optional_text(row: &Row, i: usize, name: &'static str) -> (r: Result<Option<String>>)
    ensures
        outcome(r) == optional_text_column(row.deep_view(), i, name@),
{
    if i < row.len() {
        match &row[i] {
            SqlValue::Null => {
                return Ok(None);
            },
            SqlValue::Text(t) => {
                return Ok(Some(t.clone()));
            },
            _ => {},
        }
    }
    Err(column_error(row, i, name))
}

/// Reads the column `i` of a row, as an integer.
pub fn read_integer(row: &Row, i: usize, name: &'static str) -> (r: Result<i64>)
    ensures
        outcome(r) == integer_column(row.deep_view(), i, name@),
{
    if i < row.len() {
        if let SqlValue::Integer(n) = &row[i] {
            return Ok(*n);
        }
    }
    Err(column_error(row, i, name))
}

/// Reads the column `i` of a row, as an integer or null.
pub fn read_optional_integer(row: &Row, i: usize, name: &'static str) -> (r: Result<Option<i64>>)
    ensures
        outcome(r) == optional_integer_column(row.deep_view(), i, name@),
{
    if i < row.len() {
        match &row[i] {
            SqlValue::Null => {
                return Ok(None);
            },
            SqlValue::Integer(n) => {
                return Ok(Some(*n));
            },
            _ => {},
        }
    }
    Err(column_error(row, i, name))
}

/// Reads the column `i` of a row, as a real number.
pub fn read_real(row: &Row, i: usize, name: &'static str) -> (r: Result<RealBits>)
    ensures
        outcome(r) == real_column(row.deep_view(), i, name@),
{
    if i < row.len() {
        match &row[i] {
            SqlValue::Real(bits) => {
                return Ok(*bits);
            },
            SqlValue::Integer(n) => {
                return Ok(real_from_integer(*n));
            },
            _ => {},
        }
    }
    Err(column_error(row, i, name))
}

/// What an embedding column says of the embedding.
pub open spec fn embedding_of(blob: Seq<u8>) -> Seq<u8> {
    if blob.len() % 4 != 0 {
        Seq::empty()
    } else {
        blob
    }
}

/// The embedding in a blob: nothing where the blob is no list of four-byte
/// numbers.
pub fn blob_to_embedding(blob: &Vec<u8>) -> (r: Vec<u8>)
    ensures
        r@ == embedding_of(blob@),
{
    if blob.len() % 4 != 0 {
        return Vec::new();
    }
    blob.clone()
}

/// Reads the column `i` of a row, as an embedding or null.
pub fn read_embedding(row: &Row, i: usize, name: &'static str) -> (r: Result<Option<Vec<u8>>>)
    ensures
        match r {
            Ok(e) => optional_blob_column(row.deep_view(), i, name@) matches Ok(b) && match (e, b) {
                (Some(bytes), Some(blob)) => bytes@ == embedding_of(blob),
                (None, None) => true,
                _ => false,
            },
            Err(e) => optional_blob_column(row.deep_view(), i, name@) == Read::<Option<Seq<u8>>>::Err(e.deep_view()),
        },
{
    if i < row.len() {
        match &row[i] {
            SqlValue::Null => {
                return Ok(None);
            },
            SqlValue::Blob(bytes) => {
                return Ok(Some(blob_to_embedding(bytes)));
            },
            _ => {},
        }
    }
    Err(column_error(row, i, name))
}

/// The node kind that a stored name stands for; an unknown name stands for a
/// fact.
pub open spec fn stored_node_kind(name: Seq<char>) -> NodeKind {
    match named_node_kind(name) {
        Some(kind) => kind,
        None => NodeKind::Fact,
    }
}

/// The edge kind that a stored name stands for; an unknown name stands for the
/// loosest relation.
pub open spec fn stored_edge_kind(name: Seq<char>) -> EdgeKind {
    match named_edge_kind(name) {
        Some(kind) => kind,
        None => EdgeKind::RelatesTo,
    }
}

/// A node without its embedding, from the first ten columns of a row.
pub open spec fn light_node_row(row: Seq<SqlV>) -> Read<NodeV> {
    match text_column(row, 1, "kind"@) {
        Err(f) => Err(f),
        Ok(kind) => match text_column(row, 0, "id"@) {
            Err(f) => Err(f),
            Ok(id) => match text_column(row, 2, "title"@) {
                Err(f) => Err(f),
                Ok(title) => match optional_text_column(row, 3, "body"@) {
                    Err(f) => Err(f),
                    Ok(body) => match real_column(row, 4, "importance"@) {
                        Err(f) => Err(f),
                        Ok(importance) => match real_column(row, 5, "trust_score"@) {
                            Err(f) => Err(f),
                            Ok(trust_score) => match integer_column(row, 6, "access_count"@) {
                                Err(f) => Err(f),
                                Ok(access_count) => match integer_column(row, 7, "created_at"@) {
                                    Err(f) => Err(f),
                                    Ok(created_at) => match optional_integer_column(row, 8, "last_access"@) {
                                        Err(f) => Err(f),
                                        Ok(last_access) => match real_column(row, 9, "decay_rate"@) {
                                            Err(f) => Err(f),
                                            Ok(decay_rate) => Ok(
                                                NodeV {
                                                    id,
                                                    kind: stored_node_kind(kind),
                                                    title,
                                                    body,
                                                    importance,
                                                    trust_score,
                                                    access_count,
                                                    created_at,
                                                    last_access,
                                                    decay_rate,
                                                    embedding: None,
                                                },
                                            ),
                                        },
                                    },
                                },
                            },
                        },
                    },
                },
            },
        },
    }
}

/// A node, from the eleven columns of a row.
pub open spec fn node_row(row: Seq<SqlV>) -> Read<NodeV> {
    match optional_blob_column(row, 10, "embedding"@) {
        Err(f) => Err(f),
        Ok(blob) => match light_node_row(row) {
            Err(f) => Err(f),
            Ok(node) => Ok(
                NodeV {
                    embedding: match blob {
                        Some(bytes) => Some(embedding_of(bytes)),
                        None => None,
                    },
                    ..node
                },
            ),
        },
    }
}

/// An edge, from the seven columns of a row.
pub open spec fn edge_row(row: Seq<SqlV>) -> Read<EdgeV> {
    match text_column(row, 3, "kind"@) {
        Err(f) => Err(f),
        Ok(kind) => match text_column(row, 0, "id"@) {
            Err(f) => Err(f),
            Ok(id) => match text_column(row, 1, "src"@) {
                Err(f) => Err(f),
                Ok(src) => match text_column(row, 2, "dst"@) {
                    Err(f) => Err(f),
                    Ok(dst) => match real_column(row, 4, "weight"@) {
                        Err(f) => Err(f),
                        Ok(weight) => match integer_column(row, 5, "created_at"@) {
                            Err(f) => Err(f),
                            Ok(created_at) => match optional_text_column(row, 6, "metadata"@) {
                                Err(f) => Err(f),
                                Ok(metadata) => Ok(
                                    EdgeV {
                                        id,
                                        src,
                                        dst,
                                        kind: stored_edge_kind(kind),
                                        weight,
                                        created_at,
                                        metadata,
                                    },
                                ),
                            },
                        },
                    },
                },
            },
        },
    }
}

/// A contradiction, from the four columns of a row.
pub open spec fn contradiction_row(row: Seq<SqlV>) -> Read<ContradictionV> {
    match open_contradiction_row(row) {
        Err(f) => Err(f),
        Ok(pair) => match integer_column(row, 3, "resolved"@) {
            Err(f) => Err(f),
            Ok(resolved) => Ok(ContradictionV { resolved: resolved != 0, ..pair }),
        },
    }
}

/// A contradiction that is known to be unresolved, from the first three columns
/// of a row.
pub open spec fn open_contradiction_row(row: Seq<SqlV>) -> Read<ContradictionV> {
    match text_column(row, 0, "node_a"@) {
        Err(f) => Err(f),
        Ok(node_a) => match text_column(row, 1, "node_b"@) {
            Err(f) => Err(f),
            Ok(node_b) => match integer_column(row, 2, "detected_at"@) {
                Err(f) => Err(f),
                Ok(detected_at) => Ok(ContradictionV { node_a, node_b, detected_at, resolved: false }),
            },
        },
    }
}

/// An ID and an embedding, from the two columns of a row.
pub open spec fn embedding_row(row: Seq<SqlV>) -> Read<(Seq<char>, Seq<u8>)> {
    match text_column(row, 0, "id"@) {
        Err(f) => Err(f),
        Ok(id) => match blob_column(row, 1, "embedding"@) {
            Err(f) => Err(f),
            Ok(blob) => Ok((id, embedding_of(blob))),
        },
    }
}

/// An ID, an importance, a decay rate and a last access, from the four columns
/// of a row.
pub open spec fn decayable_row(row: Seq<SqlV>) -> Read<(Seq<char>, RealBits, RealBits, i64)> {
    match text_column(row, 0, "id"@) {
        Err(f) => Err(f),
        Ok(id) => match real_column(row, 1, "importance"@) {
            Err(f) => Err(f),
            Ok(importance) => match real_column(row, 2, "decay_rate"@) {
                Err(f) => Err(f),
                Ok(decay_rate) => match integer_column(row, 3, "la"@) {
                    Err(f) => Err(f),
                    Ok(last_access) => Ok((id, importance, decay_rate, last_access)),
                },
            },
        },
    }
}

/// A neighbour and the kind of the edge to it, from the two columns of a row.
pub open spec fn neighbor_row(row: Seq<SqlV>) -> Read<(Seq<char>, EdgeKind)> {
    match text_column(row, 0, "dst"@) {
        Err(f) => Err(f),
        Ok(id) => match text_column(row, 1, "kind"@) {
            Err(f) => Err(f),
            Ok(kind) => Ok((id, stored_edge_kind(kind))),
        },
    }
}

/// A name and a count, from the two columns of a row.
pub open spec fn named_count_row(row: Seq<SqlV>) -> Read<(Seq<char>, i64)> {
    match text_column(row, 0, "kind"@) {
        Err(f) => Err(f),
        Ok(name) => match integer_column(row, 1, "COUNT(*)"@) {
            Err(f) => Err(f),
            Ok(count) => Ok((name, count)),
        },
    }
}

/// Reads a name and a count.
pub fn row_to_named_count(row: &Row) -> (r: Result<(String, i64)>)
    ensures
        outcome(r) == named_count_row(row.deep_view()),
{
    Ok((read_text(row, 0, "kind")?, read_integer(row, 1, "COUNT(*)")?))
}

/// Two texts, from the two columns of a row.
pub open spec fn text_pair_row(row: Seq<SqlV>) -> Read<(Seq<char>, Seq<char>)> {
    match text_column(row, 0, "user_id"@) {
        Err(f) => Err(f),
        Ok(a) => match text_column(row, 1, "channel"@) {
            Err(f) => Err(f),
            Ok(b) => Ok((a, b)),
        },
    }
}

/// Reads two texts.
pub fn row_to_text_pair(row: &Row) -> (r: Result<(String, String)>)
    ensures
        outcome(r) == text_pair_row(row.deep_view()),
{
    Ok((read_text(row, 0, "user_id")?, read_text(row, 1, "channel")?))
}

/// Reads an ID and an embedding.
pub fn row_to_embedding(row: &Row) -> (r: Result<(String, Vec<u8>)>)
    ensures
        outcome(r) == embedding_row(row.deep_view()),
{
    let id = read_text(row, 0, "id")?;
    if row.len() > 1 {
        if let SqlValue::Blob(bytes) = &row[1] {
            let embedding = blob_to_embedding(bytes);
            assert(embedding.deep_view() =~= embedding@);
            return Ok((id, embedding));
        }
    }
    Err(column_error(row, 1, "embedding"))
}

/// Reads an ID, an importance, a decay rate and a last access.
pub fn row_to_decayable(row: &Row) -> (r: Result<(String, RealBits, RealBits, i64)>)
    ensures
        outcome(r) == decayable_row(row.deep_view()),
{
    Ok((read_text(row, 0, "id")?, read_real(row, 1, "importance")?, read_real(row, 2, "decay_rate")?, read_integer(row, 3, "la")?))
}

/// The edge kind that a stored name stands for.
fn read_edge_kind(name: &str) -> (r: EdgeKind)
    ensures
        r == stored_edge_kind(name@),
{
    match EdgeKind::from_str_opt(name) {
        Some(kind) => kind,
        None => EdgeKind::RelatesTo,
    }
}

/// Reads a neighbour and the kind of the edge to it.
pub fn row_to_neighbor(row: &Row) -> (r: Result<(String, EdgeKind)>)
    ensures
        outcome(r) == neighbor_row(row.deep_view()),
{
    let id = read_text(row, 0, "dst")?;
    let kind = read_text(row, 1, "kind")?;
    Ok((id, read_edge_kind(kind.as_str())))
}

/// Reads a node without its embedding.
pub fn row_to_light_node(row: &Row) -> (r: Result<Node>)
    ensures
        outcome(r) == light_node_row(row.deep_view()),
{
    let kind = read_text(row, 1, "kind")?;
    Ok(
        Node {
            id: read_text(row, 0, "id")?,
            kind: match NodeKind::from_str_opt(kind.as_str()) {
                Some(kind) => kind,
                None => NodeKind::Fact,
            },
            title: read_text(row, 2, "title")?,
            body: read_optional_text(row, 3, "body")?,
            importance: read_real(row, 4, "importance")?,
            trust_score: read_real(row, 5, "trust_score")?,
            access_count: read_integer(row, 6, "access_count")?,
            created_at: read_integer(row, 7, "created_at")?,
            last_access: read_optional_integer(row, 8, "last_access")?,
            decay_rate: read_real(row, 9, "decay_rate")?,
            embedding: None,
        },
    )
}

/// Reads a node.
pub fn row_to_node(row: &Row) -> (r: Result<Node>)
    ensures
        outcome(r) == node_row(row.deep_view()),
{
    let embedding = read_embedding(row, 10, "embedding")?;
    let mut node = row_to_light_node(row)?;
    node.embedding = embedding;
    Ok(node)
}

/// Reads an edge.
pub fn row_to_edge(row: &Row) -> (r: Result<Edge>)
    ensures
        outcome(r) == edge_row(row.deep_view()),
{
    let kind = read_text(row, 3, "kind")?;
    Ok(
        Edge {
            id: read_text(row, 0, "id")?,
            src: read_text(row, 1, "src")?,
            dst: read_text(row, 2, "dst")?,
            kind: read_edge_kind(kind.as_str()),
            weight: read_real(row, 4, "weight")?,
            created_at: read_integer(row, 5, "created_at")?,
            metadata: read_optional_text(row, 6, "metadata")?,
        },
    )
}

/// Reads a contradiction that is known to be unresolved.
pub fn row_to_open_contradiction(row: &Row) -> (r: Result<ContradictionPair>)
    ensures
        outcome(r) == open_contradiction_row(row.deep_view()),
{
    Ok(
        ContradictionPair {
            node_a: read_text(row, 0, "node_a")?,
            node_b: read_text(row, 1, "node_b")?,
            detected_at: read_integer(row, 2, "detected_at")?,
            resolved: false,
        },
    )
}

/// Reads a contradiction.
pub fn row_to_contradiction(row: &Row) -> (r: Result<ContradictionPair>)
    ensures
        outcome(r) == contradiction_row(row.deep_view()),
{
    let mut pair = row_to_open_contradiction(row)?;
    pair.resolved = read_integer(row, 3, "resolved")? != 0;
    Ok(pair)
}

/// Reads a count.
pub fn row_to_count(row: &Row) -> (r: Result<i64>)
    ensures
        outcome(r) == integer_column(row.deep_view(), 0, "COUNT(*)"@),
{
    read_integer(row, 0, "COUNT(*)")
}

/// Reads an ID.
pub fn row_to_id(row: &Row) -> (r: Result<String>)
    ensures
        outcome(r) == text_column(row.deep_view(), 0, "id"@),
{
    read_text(row, 0, "id")
}

/// Reads the ID of the node that an edge leaves.
pub fn row_to_src(row: &Row) -> (r: Result<String>)
    ensures
        outcome(r) == text_column(row.deep_view(), 0, "src"@),
{
    read_text(row, 0, "src")
}

/// Reads a value.
pub fn row_to_value(row: &Row) -> (r: Result<String>)
    ensures
        outcome(r) == text_column(row.deep_view(), 0, "value"@),
{
    read_text(row, 0, "value")
}

/// All rows of an answer, each read in turn; the first that cannot be read
/// decides otherwise.
pub open spec fn read_all<T>(rows: Seq<RowV>, read: spec_fn(Seq<SqlV>) -> Read<T>) -> Read<Seq<T>>
    decreases rows.len(),
{
    if rows.len() == 0 {
        Ok(Seq::empty())
    } else {
        match read_all(rows.drop_last(), read) {
            Err(f) => Err(f),
            Ok(done) => match rows.last() {
                Err(e) => Err(FaultV::Sqlite(e)),
                Ok(row) => match read(row) {
                    Err(f) => Err(f),
                    Ok(t) => Ok(done.push(t)),
                },
            },
        }
    }
}

/// The first row of an answer, if there is one.
pub open spec fn read_first<T>(rows: Seq<RowV>, read: spec_fn(Seq<SqlV>) -> Read<T>) -> Read<Option<T>> {
    if rows.len() == 0 {
        Ok(None)
    } else {
        match rows.first() {
            Err(e) => Err(FaultV::Sqlite(e)),
            Ok(row) => match read(row) {
                Err(f) => Err(f),
                Ok(t) => Ok(Some(t)),
            },
        }
    }
}

/// An answer whose reading stops early is not read further.
proof fn lemma_read_stops<T>(rows: Seq<RowV>, read: spec_fn(Seq<SqlV>) -> Read<T>, upto: int)
    requires
        0 <= upto <= rows.len(),
        read_all(rows.take(upto), read) is Err,
    ensures
        read_all(rows, read) == read_all(rows.take(upto), read),
    decreases rows.len(),
{
    if upto < rows.len() {
        assert(rows.drop_last().take(upto) =~= rows.take(upto));
        lemma_read_stops(rows.drop_last(), read, upto);
    } else {
        assert(rows.take(upto) =~= rows);
    }
}

/// Where reading one row fails for a column only, reading all of them fails for
/// the database or for a column.
pub proof fn lemma_read_faults<T>(rows: Seq<RowV>, read: spec_fn(Seq<SqlV>) -> Read<T>)
    requires
        forall|row: Seq<SqlV>| #[trigger] read(row) matches Err(f) ==> f is Column,
    ensures
        read_all(rows, read) matches Err(f) ==> f is Sqlite || f is Column,
    decreases rows.len(),
{
    if rows.len() > 0 {
        lemma_read_faults(rows.drop_last(), read);
    }
}

/// Reads all rows of an answer.
pub(crate) fn collect_rows<T: DeepView, F: Fn(&Row) -> Result<T>>(
    rows: Vec<core::result::Result<Row, rusqlite::Error>>,
    read: F,
    Ghost(meaning): Ghost<spec_fn(Seq<SqlV>) -> Read<T::V>>,
) -> (r: Result<Vec<T>>)
    requires
        forall|row: &Row| call_requires(read, (row,)),
        forall|row: &Row, t: Result<T>| call_ensures(read, (row,), t) ==> outcome(t) == meaning(row.deep_view()),
    ensures
        outcome(r) == read_all(row_views(rows@), meaning),
{
    let ghost all = rows@;
    let ghost views = row_views(all);
    let mut done: Vec<T> = Vec::new();
    assert(done.deep_view() =~= Seq::<T::V>::empty());
    for row in iter: rows
        invariant
            iter.seq() == all,
            views == row_views(all),
            forall|row: &Row| call_requires(read, (row,)),
            forall|row: &Row, t: Result<T>| call_ensures(read, (row,), t) ==> outcome(t) == meaning(row.deep_view()),
            read_all(views.take(iter.index() as int), meaning) == Read::Ok(done.deep_view()),
    {
        proof {
            assert(views.take(iter.index() + 1).drop_last() =~= views.take(iter.index() as int));
            assert(views[iter.index() as int] == row_views(all)[iter.index() as int]);
        }
        match row {
            Err(e) => {
                proof {
                    lemma_read_stops(views, meaning, iter.index() + 1);
                }
                return Err(CortexError::Sqlite(e));
            },
            Ok(values) => match read(&values) {
                Err(e) => {
                    proof {
                        lemma_read_stops(views, meaning, iter.index() + 1);
                    }
                    return Err(e);
                },
                Ok(t) => {
                    let ghost had = done.deep_view();
                    done.push(t);
                    assert(done.deep_view() =~= had.push(t.deep_view()));
                },
            },
        }
    }
    assert(views.take(views.len() as int) =~= views);
    Ok(done)
}

/// All rows that answer a query.
pub open spec fn all_of<T>(reply: ReplyV, read: spec_fn(Seq<SqlV>) -> Read<T>) -> Read<Seq<T>> {
    match rows_of(reply) {
        Err(f) => Err(f),
        Ok(rows) => read_all(rows, read),
    }
}

/// The first row that answers a query, if there is one.
pub open spec fn first_of<T>(reply: ReplyV, read: spec_fn(Seq<SqlV>) -> Read<T>) -> Read<Option<T>> {
    match rows_of(reply) {
        Err(f) => Err(f),
        Ok(rows) => read_first(rows, read),
    }
}

/// The integer in the column `name` of the first row that answers a query that
/// always has one.
pub open spec fn number_of(reply: ReplyV, name: Seq<char>) -> Read<i64> {
    match first_of(reply, |row: Seq<SqlV>| integer_column(row, 0, name)) {
        Err(f) => Err(f),
        Ok(None) => Err(FaultV::NoRow),
        Ok(Some(n)) => Ok(n),
    }
}

/// The count that answers a query for one.
pub open spec fn count_of(reply: ReplyV) -> Read<i64> {
    number_of(reply, "COUNT(*)"@)
}

/// Runs a query and reads all its rows.
pub(crate) fn fetch_all<T: DeepView, F: Fn(&Row) -> Result<T>>(
    conn: &mut Connection,
    sql: &str,
    params: Vec<SqlValue>,
    read: F,
    Ghost(meaning): Ghost<spec_fn(Seq<SqlV>) -> Read<T::V>>,
) -> (r: Result<Vec<T>>)
    requires
        forall|row: &Row| call_requires(read, (row,)),
        forall|row: &Row, t: Result<T>| call_ensures(read, (row,), t) ==> outcome(t) == meaning(row.deep_view()),
    ensures
        queried(history(*old(conn)), history(*final(conn)), StatementV { sql: sql@, params: params.deep_view() }),
        outcome(r) == all_of(history(*final(conn)).last().reply, meaning),
{
    let rows = query(conn, sql, params)?;
    collect_rows(rows, read, Ghost(meaning))
}

/// Reads the first row of an answer.
pub(crate) fn first_row<T: DeepView, F: Fn(&Row) -> Result<T>>(
    rows: Vec<core::result::Result<Row, rusqlite::Error>>,
    read: F,
    Ghost(meaning): Ghost<spec_fn(Seq<SqlV>) -> Read<T::V>>,
) -> (r: Result<Option<T>>)
    requires
        forall|row: &Row| call_requires(read, (row,)),
        forall|row: &Row, t: Result<T>| call_ensures(read, (row,), t) ==> outcome(t) == meaning(row.deep_view()),
    ensures
        outcome(r) == read_first(row_views(rows@), meaning),
{
    let mut rows = rows;
    if rows.len() == 0 {
        return Ok(None);
    }
    match rows.remove(0) {
        Err(e) => Err(CortexError::Sqlite(e)),
        Ok(values) => Ok(Some(read(&values)?)),
    }
}

/// Runs a query and reads its first row.
pub(crate) fn fetch_first<T: DeepView, F: Fn(&Row) -> Result<T>>(
    conn: &mut Connection,
    sql: &str,
    params: Vec<SqlValue>,
    read: F,
    Ghost(meaning): Ghost<spec_fn(Seq<SqlV>) -> Read<T::V>>,
) -> (r: Result<Option<T>>)
    requires
        forall|row: &Row| call_requires(read, (row,)),
        forall|row: &Row, t: Result<T>| call_ensures(read, (row,), t) ==> outcome(t) == meaning(row.deep_view()),
    ensures
        queried(history(*old(conn)), history(*final(conn)), StatementV { sql: sql@, params: params.deep_view() }),
        outcome(r) == first_of(history(*final(conn)).last().reply, meaning),
{
    let rows = query(conn, sql, params)?;
    first_row(rows, read, Ghost(meaning))
}

/// Runs a query that answers with one integer, in the column `name`.
pub(crate) fn fetch_number<F: Fn(&Row) -> Result<i64>>(
    conn: &mut Connection,
    sql: &str,
    read: F,
    params: Vec<SqlValue>,
    Ghost(name): Ghost<Seq<char>>,
) -> (r: Result<i64>)
    requires
        forall|row: &Row| call_requires(read, (row,)),
        forall|row: &Row, t: Result<i64>|
            call_ensures(read, (row,), t) ==> outcome(t) == integer_column(row.deep_view(), 0, name),
    ensures
        queried(history(*old(conn)), history(*final(conn)), StatementV { sql: sql@, params: params.deep_view() }),
        outcome(r) == number_of(history(*final(conn)).last().reply, name),
{
    let found = fetch_first(conn, sql, params, read, Ghost(|row: Seq<SqlV>| integer_column(row, 0, name)))?;
    match found {
        Some(n) => Ok(n),
        None => Err(CortexError::NoRow),
    }
}

/// Runs a query that counts.
pub(crate) fn fetch_count(conn: &mut Connection, sql: &str, params: Vec<SqlValue>) -> (r: Result<i64>)
    ensures
        queried(history(*old(conn)), history(*final(conn)), StatementV { sql: sql@, params: params.deep_view() }),
        outcome(r) == count_of(history(*final(conn)).last().reply),
{
    fetch_number(conn, sql, row_to_count, params, Ghost("COUNT(*)"@))
}

/// A node reads back from the columns that it was stored in, where its embedding
/// is a list of four-byte numbers.
pub proof fn law_node_reads_back(node: NodeV)
    requires
        node.embedding matches Some(bytes) ==> bytes.len() % 4 == 0,
    ensures
        node_row(node_cells(node)) == Read::<NodeV>::Ok(node),
{
    lemma_node_kind_name_reads_back(node.kind);
}

/// A node without its embedding reads back from the first ten of its columns.
pub proof fn law_light_node_reads_back(node: NodeV)
    ensures
        light_node_row(node_cells(node).take(10)) == Read::<NodeV>::Ok(NodeV { embedding: None, ..node }),
{
    lemma_node_kind_name_reads_back(node.kind);
}

/// An edge reads back from the columns that it was stored in.
pub proof fn law_edge_reads_back(edge: EdgeV)
    ensures
        edge_row(edge_cells(edge)) == Read::<EdgeV>::Ok(edge),
{
    lemma_edge_kind_name_reads_back(edge.kind);
}

/// An answer that is read is read whole: every row, each as it says, in order.
pub proof fn law_all_rows_are_read<T>(rows: Seq<RowV>, read: spec_fn(Seq<SqlV>) -> Read<T>)
    requires
        read_all(rows, read) is Ok,
    ensures
        read_all(rows, read)->Ok_0.len() == rows.len(),
        forall|i: int|
            0 <= i < rows.len() ==> (#[trigger] rows[i] matches Ok(row) && read(row) == Read::<T>::Ok(
                read_all(rows, read)->Ok_0[i],
            )),
    decreases rows.len(),
{
    if rows.len() > 0 {
        let rest = rows.drop_last();
        law_all_rows_are_read(rest, read);
        assert forall|i: int| 0 <= i < rows.len() implies (#[trigger] rows[i] matches Ok(row) && read(row) == Read::<
            T,
        >::Ok(read_all(rows, read)->Ok_0[i])) by {
            if i < rest.len() {
                assert(rest[i] == rows[i]);
            }
        }
    }
}

/// An answer is read whole or not at all: where every row can be read, the answer
/// can.
pub proof fn law_readable_rows_are_read<T>(rows: Seq<RowV>, read: spec_fn(Seq<SqlV>) -> Read<T>)
    requires
        forall|i: int| 0 <= i < rows.len() ==> (#[trigger] rows[i] matches Ok(row) && read(row) is Ok),
    ensures
        read_all(rows, read) is Ok,
    decreases rows.len(),
{
    if rows.len() > 0 {
        let rest = rows.drop_last();
        assert forall|i: int| 0 <= i < rest.len() implies (#[trigger] rest[i] matches Ok(row) && read(row) is Ok) by {
            assert(rest[i] == rows[i]);
        }
        law_readable_rows_are_read(rest, read);
        assert(rows[rows.len() - 1] == rows.last());
    }
}

}
