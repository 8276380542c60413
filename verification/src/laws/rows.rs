//! What the rows are for: which column says what.

use vstd::prelude::*;

use super::text::{law_numeral_has_its_value, value_of};
use crate::db::params::{edge_cells, node_cells};
use crate::db::rows::{
    contradiction_row, edge_row, light_node_row, node_row, open_contradiction_row, read_first, stored_edge_kind,
    stored_node_kind, Read,
};
use crate::db::{real_of, type_of, RowV, SqlV};
use crate::error::{fault_text, FaultV};
use crate::session::{session_row, SessionV};
use crate::text::decimal;
use crate::types::{
    edge_kind_name, lemma_edge_kind_name_reads_back, lemma_node_kind_name_reads_back, node_kind_name, ContradictionV,
    EdgeKind, EdgeV, NodeKind, NodeV, RealBits,
};

verus! {

/// A value is a text, or null where there is none.
pub open spec fn says_text(value: SqlV, text: Option<Seq<char>>) -> bool {
    match text {
        Some(t) => value == SqlV::Text(t),
        None => value is Null,
    }
}

/// A value is a number; an integer stands for the double nearest to it.
pub open spec fn says_number(value: SqlV, number: RealBits) -> bool {
    match value {
        SqlV::Real(x) => x == number,
        SqlV::Integer(n) => real_of(n) == number,
        _ => false,
    }
}

/// The columns of a node's row are, in this order: its ID, the name of its kind, its
/// title, its body, its importance, its trust score, how often it was accessed, when it
/// was created, when it was last accessed, its decay rate and its embedding.
pub proof fn law_node_is_stored_column_by_column(node: NodeV)
    ensures
        node_cells(node).len() == 11,
        node_cells(node)[0] == SqlV::Text(node.id),
        node_cells(node)[1] is Text,
        stored_node_kind(node_cells(node)[1]->Text_0) == node.kind,
        node_cells(node)[2] == SqlV::Text(node.title),
        says_text(node_cells(node)[3], node.body),
        node_cells(node)[4] == SqlV::Real(node.importance),
        node_cells(node)[5] == SqlV::Real(node.trust_score),
        node_cells(node)[6] == SqlV::Integer(node.access_count),
        node_cells(node)[7] == SqlV::Integer(node.created_at),
        node.last_access matches Some(t) ==> node_cells(node)[8] == SqlV::Integer(t),
        node.last_access is None ==> node_cells(node)[8] is Null,
        node_cells(node)[9] == SqlV::Real(node.decay_rate),
        node.embedding matches Some(bytes) ==> node_cells(node)[10] == SqlV::Blob(bytes),
        node.embedding is None ==> node_cells(node)[10] is Null,
{
    lemma_node_kind_name_reads_back(node.kind);
}

/// A node is read from the columns that it is stored in. A row that is read without its
/// embedding gives the same node without one.
pub proof fn law_node_is_read_column_by_column(row: Seq<SqlV>, node: NodeV)
    requires
        node_row(row) == Read::<NodeV>::Ok(node),
    ensures
        row.len() > 10,
        row[0] == SqlV::Text(node.id),
        row[1] is Text && node.kind == stored_node_kind(row[1]->Text_0),
        row[2] == SqlV::Text(node.title),
        says_text(row[3], node.body),
        says_number(row[4], node.importance),
        says_number(row[5], node.trust_score),
        row[6] == SqlV::Integer(node.access_count),
        row[7] == SqlV::Integer(node.created_at),
        match node.last_access {
            Some(t) => row[8] == SqlV::Integer(t),
            None => row[8] is Null,
        },
        says_number(row[9], node.decay_rate),
        match node.embedding {
            Some(bytes) => row[10] is Blob && if row[10]->Blob_0.len() % 4 == 0 {
                bytes == row[10]->Blob_0
            } else {
                bytes.len() == 0
            },
            None => row[10] is Null,
        },
        light_node_row(row) == Read::<NodeV>::Ok(NodeV { embedding: None, ..node }),
        light_node_row(row.take(10)) == light_node_row(row),
{
    assert forall|i: int| 0 <= i < 10 implies row.take(10)[i] == row[i] by {}
}

/// A row whose columns are of the types of a node's is read as a node.
pub proof fn law_row_of_the_right_types_is_a_node(row: Seq<SqlV>)
    requires
        row.len() == 11,
        row[0] is Text,
        row[1] is Text,
        row[2] is Text,
        row[3] is Text || row[3] is Null,
        row[4] is Real || row[4] is Integer,
        row[5] is Real || row[5] is Integer,
        row[6] is Integer,
        row[7] is Integer,
        row[8] is Integer || row[8] is Null,
        row[9] is Real || row[9] is Integer,
        row[10] is Blob || row[10] is Null,
    ensures
        node_row(row) is Ok,
        light_node_row(row) is Ok,
{
}

/// The names under which the kinds of nodes and of edges are stored.
pub proof fn law_kinds_are_stored_by_name(kind: NodeKind, edge: EdgeKind, node: NodeV, link: EdgeV)
    requires
        node.kind == kind,
        link.kind == edge,
    ensures
        node_cells(node)[1] == SqlV::Text(
            match kind {
                NodeKind::Soul => "soul"@,
                NodeKind::Fact => "fact"@,
                NodeKind::Entity => "entity"@,
                NodeKind::Decision => "decision"@,
                NodeKind::Pattern => "pattern"@,
                NodeKind::Goal => "goal"@,
                NodeKind::Session => "session"@,
                NodeKind::LoopIteration => "loop_iteration"@,
                NodeKind::LlmCall => "llm_call"@,
                NodeKind::ToolCall => "tool_call"@,
                NodeKind::BackgroundTask => "background_task"@,
                NodeKind::UserInput => "user_input"@,
                NodeKind::Notification => "notification"@,
            },
        ),
        edge_cells(link)[3] == SqlV::Text(
            match edge {
                EdgeKind::RelatesTo => "relates_to"@,
                EdgeKind::Contradicts => "contradicts"@,
                EdgeKind::Supports => "supports"@,
                EdgeKind::Supersedes => "supersedes"@,
                EdgeKind::DerivesFrom => "derives_from"@,
                EdgeKind::PartOf => "part_of"@,
            },
        ),
{
}

/// A name that no kind has stands for a fact, or for the loosest relation; the name of a
/// kind stands for that kind.
pub proof fn law_unknown_names_stand_for_the_plainest_kind(name: Seq<char>, kind: NodeKind, edge: EdgeKind)
    ensures
        stored_node_kind(node_kind_name(kind)) == kind,
        stored_edge_kind(edge_kind_name(edge)) == edge,
        (forall|k: NodeKind| #[trigger] node_kind_name(k) != name) ==> stored_node_kind(name) == NodeKind::Fact,
        (forall|k: EdgeKind| #[trigger] edge_kind_name(k) != name) ==> stored_edge_kind(name) == EdgeKind::RelatesTo,
{
    lemma_node_kind_name_reads_back(kind);
    lemma_edge_kind_name_reads_back(edge);
}

/// The columns of an edge's row are, in this order: its ID, the node that it leaves, the
/// node that it enters, the name of its kind, its weight, when it was created, and what
/// else is known of it. It is read from the columns that it is stored in.
pub proof fn law_edge_is_kept_column_by_column(edge: EdgeV, row: Seq<SqlV>, read: EdgeV)
    requires
        edge_row(row) == Read::<EdgeV>::Ok(read),
    ensures
        edge_cells(edge).len() == 7,
        edge_cells(edge)[0] == SqlV::Text(edge.id),
        edge_cells(edge)[1] == SqlV::Text(edge.src),
        edge_cells(edge)[2] == SqlV::Text(edge.dst),
        edge_cells(edge)[3] is Text && stored_edge_kind(edge_cells(edge)[3]->Text_0) == edge.kind,
        edge_cells(edge)[4] == SqlV::Real(edge.weight),
        edge_cells(edge)[5] == SqlV::Integer(edge.created_at),
        says_text(edge_cells(edge)[6], edge.metadata),
        row.len() > 6,
        row[0] == SqlV::Text(read.id),
        row[1] == SqlV::Text(read.src),
        row[2] == SqlV::Text(read.dst),
        row[3] is Text && read.kind == stored_edge_kind(row[3]->Text_0),
        says_number(row[4], read.weight),
        row[5] == SqlV::Integer(read.created_at),
        says_text(row[6], read.metadata),
{
    lemma_edge_kind_name_reads_back(edge.kind);
}

/// A contradiction is read from its two nodes, when it was found, and whether it was
/// resolved, which any number but zero says. An open one is not resolved.
pub proof fn law_contradiction_is_read_column_by_column(row: Seq<SqlV>, read: ContradictionV, open: ContradictionV)
    requires
        contradiction_row(row) == Read::<ContradictionV>::Ok(read),
        open_contradiction_row(row) == Read::<ContradictionV>::Ok(open),
    ensures
        row.len() > 3,
        row[0] == SqlV::Text(read.node_a),
        row[1] == SqlV::Text(read.node_b),
        row[2] == SqlV::Integer(read.detected_at),
        row[3] is Integer,
        read.resolved <==> row[3]->Integer_0 != 0,
        open == (ContradictionV { resolved: false, ..read }),
{
}

/// A session is read from its ID, its user, its channel, when it was created, its turns,
/// and when it was last active.
pub proof fn law_session_is_read_column_by_column(row: Seq<SqlV>, read: SessionV)
    requires
        session_row(row) == Read::<SessionV>::Ok(read),
    ensures
        row.len() > 5,
        row[0] == SqlV::Text(read.node_id),
        row[1] == SqlV::Text(read.user_id),
        row[2] == SqlV::Text(read.channel),
        row[3] == SqlV::Integer(read.created_at),
        row[4] == SqlV::Integer(read.turn_count),
        row[5] == SqlV::Integer(read.last_active),
{
}

/// A row of a node with one column of the wrong type cannot be read, and the fault names
/// that column by its place and its name.
pub proof fn law_wrong_column_of_a_node_is_named(row: Seq<SqlV>, good: Seq<SqlV>, k: usize, f: FaultV)
    requires
        row.len() == 11,
        good.len() == 11,
        node_row(good) is Ok,
        k < 11,
        forall|i: int| 0 <= i < 11 && i != k ==> row[i] == #[trigger] good[i],
        node_row(row) == Read::<NodeV>::Err(f),
    ensures
        f matches FaultV::Column { index, name, found } && index == k && found == Some(type_of(row[k as int])) && name == match k {
            0 => "id"@,
            1 => "kind"@,
            2 => "title"@,
            3 => "body"@,
            4 => "importance"@,
            5 => "trust_score"@,
            6 => "access_count"@,
            7 => "created_at"@,
            8 => "last_access"@,
            9 => "decay_rate"@,
            _ => "embedding"@,
        },
{
    assert(k != 0 ==> row[0] == good[0]);
    assert(k != 1 ==> row[1] == good[1]);
    assert(k != 2 ==> row[2] == good[2]);
    assert(k != 3 ==> row[3] == good[3]);
    assert(k != 4 ==> row[4] == good[4]);
    assert(k != 5 ==> row[5] == good[5]);
    assert(k != 6 ==> row[6] == good[6]);
    assert(k != 7 ==> row[7] == good[7]);
    assert(k != 8 ==> row[8] == good[8]);
    assert(k != 9 ==> row[9] == good[9]);
    assert(k != 10 ==> row[10] == good[10]);
}

/// A row of an edge with one column of the wrong type cannot be read, and the fault names
/// that column by its place and its name.
pub proof fn law_wrong_column_of_an_edge_is_named(row: Seq<SqlV>, good: Seq<SqlV>, k: usize, f: FaultV)
    requires
        row.len() == 7,
        good.len() == 7,
        edge_row(good) is Ok,
        k < 7,
        forall|i: int| 0 <= i < 7 && i != k ==> row[i] == #[trigger] good[i],
        edge_row(row) == Read::<EdgeV>::Err(f),
    ensures
        f matches FaultV::Column { index, name, found } && index == k && found == Some(type_of(row[k as int])) && name == match k {
            0 => "id"@,
            1 => "src"@,
            2 => "dst"@,
            3 => "kind"@,
            4 => "weight"@,
            5 => "created_at"@,
            _ => "metadata"@,
        },
{
    assert(k != 0 ==> row[0] == good[0]);
    assert(k != 1 ==> row[1] == good[1]);
    assert(k != 2 ==> row[2] == good[2]);
    assert(k != 3 ==> row[3] == good[3]);
    assert(k != 4 ==> row[4] == good[4]);
    assert(k != 5 ==> row[5] == good[5]);
    assert(k != 6 ==> row[6] == good[6]);
}

/// The message of a wrong column tells its type, its place and its name; that of a missing
/// column tells its place.
pub proof fn law_message_names_the_column(index: usize, name: Seq<char>, value: SqlV) -> (numeral: Seq<char>)
    ensures
        value_of(numeral) == index,
        fault_text(FaultV::Column { index, name, found: Some(type_of(value)) }) == "Invalid column type "@ + (match value {
            SqlV::Null => "Null"@,
            SqlV::Integer(_) => "Integer"@,
            SqlV::Real(_) => "Real"@,
            SqlV::Text(_) => "Text"@,
            SqlV::Blob(_) => "Blob"@,
        }) + " at index: "@ + numeral + ", name: "@ + name,
        fault_text(FaultV::Column { index, name, found: None }) == "Invalid column index: "@ + numeral,
        fault_text(FaultV::NoRow) == "Query returned no rows"@,
{
    law_numeral_has_its_value(index as nat);
    decimal(index as nat)
}

/// The first row of an answer is what a query for one row gives, and none where there is no
/// row.
pub proof fn law_first_row_is_read<T>(rows: Seq<RowV>, read: spec_fn(Seq<SqlV>) -> Read<T>)
    ensures
        rows.len() == 0 ==> read_first(rows, read) == Read::<Option<T>>::Ok(None),
        rows.len() > 0 ==> match rows[0] {
            Ok(row) => match read(row) {
                Ok(value) => read_first(rows, read) == Read::<Option<T>>::Ok(Some(value)),
                Err(f) => read_first(rows, read) == Read::<Option<T>>::Err(f),
            },
            Err(e) => read_first(rows, read) == Read::<Option<T>>::Err(FaultV::Sqlite(e)),
        },
{
}

}
