//! The parameters of statements.

use vstd::prelude::*;

use super::{SqlV, SqlValue};
use crate::types::{edge_kind_name, node_kind_name, Edge, EdgeV, Node, NodeV, RealBits};

verus! {

/// A text or null.
pub open spec fn optional_text(text: Option<Seq<char>>) -> SqlV {
    match text {
        Some(t) => SqlV::Text(t),
        None => SqlV::Null,
    }
}

/// An integer or null.
pub open spec fn optional_integer(n: Option<i64>) -> SqlV {
    match n {
        Some(n) => SqlV::Integer(n),
        None => SqlV::Null,
    }
}

/// Bytes or null.
pub open spec fn optional_blob(bytes: Option<Seq<u8>>) -> SqlV {
    match bytes {
        Some(b) => SqlV::Blob(b),
        None => SqlV::Null,
    }
}

/// The eleven columns of a node.
pub open spec fn node_cells(node: NodeV) -> Seq<SqlV> {
    seq![
        SqlV::Text(node.id),
        SqlV::Text(node_kind_name(node.kind)),
        SqlV::Text(node.title),
        optional_text(node.body),
        SqlV::Real(node.importance),
        SqlV::Real(node.trust_score),
        SqlV::Integer(node.access_count),
        SqlV::Integer(node.created_at),
        optional_integer(node.last_access),
        SqlV::Real(node.decay_rate),
        optional_blob(node.embedding),
    ]
}

/// The seven columns of an edge.
pub open spec fn edge_cells(edge: EdgeV) -> Seq<SqlV> {
    seq![
        SqlV::Text(edge.id),
        SqlV::Text(edge.src),
        SqlV::Text(edge.dst),
        SqlV::Text(edge_kind_name(edge.kind)),
        SqlV::Real(edge.weight),
        SqlV::Integer(edge.created_at),
        optional_text(edge.metadata),
    ]
}

/// A text.
pub(crate) fn text(t: &str) -> (r: SqlValue)
    ensures
        r.deep_view() == SqlV::Text(t@),
{
    SqlValue::Text(t.to_owned())
}

/// An integer.
pub(crate) fn integer(n: i64) -> (r: SqlValue)
    ensures
        r.deep_view() == SqlV::Integer(n),
{
    SqlValue::Integer(n)
}

/// A real number.
pub(crate) fn number(bits: RealBits) -> (r: SqlValue)
    ensures
        r.deep_view() == SqlV::Real(bits),
{
    SqlValue::Real(bits)
}

/// A text or null.
fn text_or_null(t: &Option<String>) -> (r: SqlValue)
    ensures
        r.deep_view() == optional_text(t.deep_view()),
{
    match t {
        Some(t) => SqlValue::Text(t.clone()),
        None => SqlValue::Null,
    }
}

/// No parameters.
pub(crate) fn no_params() -> (r: Vec<SqlValue>)
    ensures
        r.deep_view() == Seq::<SqlV>::empty(),
{
    let r: Vec<SqlValue> = Vec::new();
    assert(r.deep_view() =~= Seq::<SqlV>::empty());
    r
}

/// One parameter.
pub(crate) fn params1(a: SqlValue) -> (r: Vec<SqlValue>)
    ensures
        r.deep_view() == seq![a.deep_view()],
{
    let r = vec![a];
    assert(r.deep_view() =~= seq![a.deep_view()]);
    r
}

/// Two parameters.
pub(crate) fn params2(a: SqlValue, b: SqlValue) -> (r: Vec<SqlValue>)
    ensures
        r.deep_view() == seq![a.deep_view(), b.deep_view()],
{
    let r = vec![a, b];
    assert(r.deep_view() =~= seq![a.deep_view(), b.deep_view()]);
    r
}

/// Three parameters.
pub(crate) fn params3(a: SqlValue, b: SqlValue, c: SqlValue) -> (r: Vec<SqlValue>)
    ensures
        r.deep_view() == seq![a.deep_view(), b.deep_view(), c.deep_view()],
{
    let r = vec![a, b, c];
    assert(r.deep_view() =~= seq![a.deep_view(), b.deep_view(), c.deep_view()]);
    r
}

/// Five parameters.
pub(crate) fn params5(a: SqlValue, b: SqlValue, c: SqlValue, d: SqlValue, e: SqlValue) -> (r: Vec<SqlValue>)
    ensures
        r.deep_view() == seq![a.deep_view(), b.deep_view(), c.deep_view(), d.deep_view(), e.deep_view()],
{
    let r = vec![a, b, c, d, e];
    assert(r.deep_view() =~= seq![a.deep_view(), b.deep_view(), c.deep_view(), d.deep_view(), e.deep_view()]);
    r
}

/// The columns of a node.
pub(crate) fn node_params(node: &Node) -> (r: Vec<SqlValue>)
    ensures
        r.deep_view() == node_cells(node.deep_view()),
{
    let r = vec![
        SqlValue::Text(node.id.clone()),
        text(node.kind.as_str()),
        SqlValue::Text(node.title.clone()),
        text_or_null(&node.body),
        SqlValue::Real(node.importance),
        SqlValue::Real(node.trust_score),
        SqlValue::Integer(node.access_count),
        SqlValue::Integer(node.created_at),
        match node.last_access {
            Some(n) => SqlValue::Integer(n),
            None => SqlValue::Null,
        },
        SqlValue::Real(node.decay_rate),
        match &node.embedding {
            Some(bytes) => SqlValue::Blob(bytes.clone()),
            None => SqlValue::Null,
        },
    ];
    assert(r.deep_view() =~= node_cells(node.deep_view()));
    r
}

/// The columns of an edge.
pub(crate) fn edge_params(edge: &Edge) -> (r: Vec<SqlValue>)
    ensures
        r.deep_view() == edge_cells(edge.deep_view()),
{
    let r = vec![
        SqlValue::Text(edge.id.clone()),
        SqlValue::Text(edge.src.clone()),
        SqlValue::Text(edge.dst.clone()),
        text(edge.kind.as_str()),
        SqlValue::Real(edge.weight),
        SqlValue::Integer(edge.created_at),
        text_or_null(&edge.metadata),
    ];
    assert(r.deep_view() =~= edge_cells(edge.deep_view()));
    r
}

}
