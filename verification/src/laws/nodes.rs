//! What storing nodes and asking for them is for: what a store holds afterwards, and
//! which of its nodes an answer lists.

use vstd::prelude::*;

use crate::db::params::node_cells;
use crate::db::queries::{
    assignments, counts_nodes, deletes_node, deletes_nodes, escaped, finds_by_prefix, gets_all_light, gets_decayable,
    gets_embeddings, gets_meta, gets_node, gets_nodes_by_ids, gets_nodes_by_kind, gets_pending, gets_recent,
    inserts_node, lists_nodes, search_pattern, searches_text, sets_meta, touch_statements, touches, updates_fields,
    updates_importance, updates_trust, upserts_node,
};
use crate::db::rows::{decayable_row, law_all_rows_are_read, law_node_reads_back, node_row, Read};
use crate::db::{completed, rows_of, went_through, Exchange, RowV, SqlV};
use crate::store::graph::{
    law_newest_nodes_of_a_session_are_found, law_pending_notifications_are_found, law_prefix_finds_what_starts_with_it,
    tidy,
};
use crate::store::nodes::{
    holds_text, ids_differ, is_stored, is_stored_light, law_every_embedding_is_loaded, law_every_node_is_loaded,
    law_newest_nodes_are_listed, law_nodes_are_found_by_their_ids, law_search_finds_what_holds_the_text,
    law_search_pattern_fits_what_holds_the_text, law_update_sets_what_is_given, lemma_no_nul_in_pattern,
    lemma_rows_are_nodes, listed_as, lists_id, mentioning, mentions,
};
use crate::store::removal::{law_deleted_node_is_gone, law_deleted_nodes_are_gone};
use crate::store::{
    answers, does, hangs_under, last_used, lemma_runs_none, lemma_runs_one, lemma_runs_split, like_row, linked,
    may_decay, no_less, pending, recent, runs, scored, some_of, weightiest, without_nul, StoreV,
};
use crate::types::{lemma_node_kind_name_reads_back, node_kind_name, ContradictionV, NodeKind, NodeV, RealBits};

verus! {

/// A node whose ID is new is stored as it is, and nothing else changes.
pub proof fn law_new_node_is_stored(
    before: Seq<Exchange>,
    after: Seq<Exchange>,
    node: NodeV,
    store: StoreV,
    changed: StoreV,
)
    requires
        inserts_node(before, after, node, Ok(())),
        does(store, after.last(), changed),
    ensures
        !store.nodes.contains_key(node.id),
        changed == (StoreV { nodes: changed.nodes, ..store }),
        changed.nodes.dom() == store.nodes.dom().insert(node.id),
        forall|x: Seq<char>| store.nodes.contains_key(x) ==> #[trigger] changed.nodes[x] == store.nodes[x],
        node.embedding is None || node.embedding->0.len() % 4 == 0 ==> node_row(changed.nodes[node.id]) == Read::<
            NodeV,
        >::Ok(node),
{
    assert(changed.nodes.dom() =~= store.nodes.dom().insert(node.id));
    if node.embedding is None || node.embedding->0.len() % 4 == 0 {
        law_node_reads_back(node);
    }
}

/// A node is stored over another one with its ID, if there is one, and nothing else
/// changes. It keeps when that was created and how it was accessed.
pub proof fn law_node_is_stored_over_another(
    before: Seq<Exchange>,
    after: Seq<Exchange>,
    node: NodeV,
    store: StoreV,
    changed: StoreV,
)
    requires
        tidy(store),
        upserts_node(before, after, node, Ok(())),
        does(store, after.last(), changed),
        node.embedding is None || node.embedding->0.len() % 4 == 0,
    ensures
        changed == (StoreV { nodes: changed.nodes, ..store }),
        changed.nodes.dom() == store.nodes.dom().insert(node.id),
        forall|x: Seq<char>|
            store.nodes.contains_key(x) && x != node.id ==> #[trigger] changed.nodes[x] == store.nodes[x],
        !store.nodes.contains_key(node.id) ==> node_row(changed.nodes[node.id]) == Read::<NodeV>::Ok(node),
        store.nodes.contains_key(node.id) && node_row(store.nodes[node.id]) is Ok ==> node_row(changed.nodes[node.id])
            == Read::<NodeV>::Ok(
            {
                let was = node_row(store.nodes[node.id])->Ok_0;
                NodeV {
                    access_count: was.access_count,
                    created_at: was.created_at,
                    last_access: was.last_access,
                    ..node
                }
            },
        ),
{
    assert(changed.nodes.dom() =~= store.nodes.dom().insert(node.id));
    law_node_reads_back(node);
    if store.nodes.contains_key(node.id) && node_row(store.nodes[node.id]) is Ok {
        let row = changed.nodes[node.id];
        let cells = node_cells(node);
        let was = store.nodes[node.id];
        assert(row.len() == 11);
        assert(row[0] == cells[0] && row[1] == cells[1] && row[2] == cells[2] && row[3] == cells[3]);
        assert(row[4] == cells[4] && row[5] == cells[5] && row[9] == cells[9] && row[10] == cells[10]);
        assert(row[6] == was[6] && row[7] == was[7] && row[8] == was[8]);
    }
}

/// The node with an ID is found where there is one, as it is stored, and none where there
/// is none.
pub proof fn law_node_is_found_by_its_id(
    before: Seq<Exchange>,
    after: Seq<Exchange>,
    id: Seq<char>,
    found: Option<NodeV>,
    store: StoreV,
    unchanged: StoreV,
)
    requires
        gets_node(before, after, id, Ok(found)),
        does(store, after.last(), unchanged),
    ensures
        unchanged == store,
        found is Some <==> store.nodes.contains_key(id),
        found is Some ==> node_row(store.nodes[id]) == Read::<NodeV>::Ok(found->0),
{
}

/// The nodes of a kind are found, each once: those that are stored under the name of the
/// kind.
pub proof fn law_nodes_are_found_by_their_kind(
    before: Seq<Exchange>,
    after: Seq<Exchange>,
    kind: NodeKind,
    found: Seq<NodeV>,
    store: StoreV,
    unchanged: StoreV,
)
    requires
        tidy(store),
        gets_nodes_by_kind(before, after, kind, Ok(found)),
        does(store, after.last(), unchanged),
    ensures
        unchanged == store,
        ids_differ(found),
        forall|i: int| 0 <= i < found.len() ==> is_stored(store, #[trigger] found[i]) && found[i].kind == kind,
        forall|x: Seq<char>| #[trigger]
            store.nodes.contains_key(x) && store.nodes[x][1] == SqlV::Text(node_kind_name(kind)) ==> lists_id(found, x),
{
    let e = after.last();
    let name = SqlV::Text(node_kind_name(kind));
    let rows = choose|rows: Seq<Seq<SqlV>>| #[trigger]
        answers(e.reply, rows) && rows.no_duplicates() && forall|row: Seq<SqlV>| #[trigger]
            rows.contains(row) <==> row[1] == name && store.nodes.contains_value(row);
    assert forall|i: int| 0 <= i < rows.len() implies exists|x: Seq<char>| #[trigger]
        store.nodes.contains_key(x) && #[trigger] rows[i] == store.nodes[x] by {
        assert(rows.contains(rows[i]));
        assert(store.nodes.contains_value(rows[i]));
    }
    lemma_rows_are_nodes(store, e.reply, rows, found);
    lemma_node_kind_name_reads_back(kind);
    assert forall|i: int| 0 <= i < found.len() implies is_stored(store, #[trigger] found[i]) && found[i].kind == kind by {
        assert(rows.contains(rows[i]));
        assert(rows[i][1] == name);
    }
    assert forall|x: Seq<char>| #[trigger]
        store.nodes.contains_key(x) && store.nodes[x][1] == name implies lists_id(found, x) by {
        assert(store.nodes.contains_value(store.nodes[x]));
        assert(rows.contains(store.nodes[x]));
    }
}

/// The nodes with some IDs are found, each once: those that are stored, and no others.
pub proof fn law_nodes_are_found_by_ids(
    before: Seq<Exchange>,
    after: Seq<Exchange>,
    ids: Seq<Seq<char>>,
    found: Seq<NodeV>,
    store: StoreV,
    unchanged: StoreV,
)
    requires
        tidy(store),
        gets_nodes_by_ids(before, after, ids, Ok(found)),
        ids.len() > 0 ==> does(store, after.last(), unchanged),
        ids.len() == 0 ==> unchanged == store,
    ensures
        unchanged == store,
        ids_differ(found),
        forall|i: int|
            0 <= i < found.len() ==> is_stored(store, #[trigger] found[i]) && ids.contains(found[i].id),
        forall|x: Seq<char>| #[trigger] store.nodes.contains_key(x) && ids.contains(x) ==> lists_id(found, x),
{
    law_nodes_are_found_by_their_ids(store, ids, after.last(), found);
}

/// A search for a text finds nodes whose title or body holds it, each once, at most as
/// many as it may, and all of them where they are no more than that. Texts with a
/// backslash in them, which a pattern does not take as it stands, and texts with the
/// character that ends a text in C are left out.
pub proof fn law_text_is_found_in_titles_and_bodies(
    before: Seq<Exchange>,
    after: Seq<Exchange>,
    query: Seq<char>,
    limit: usize,
    found: Seq<NodeV>,
    store: StoreV,
    unchanged: StoreV,
)
    requires
        tidy(store),
        without_nul(store),
        !query.contains('\\'),
        !query.contains('\0'),
        limit <= i64::MAX,
        searches_text(before, after, query, limit, Ok(found)),
        does(store, after.last(), unchanged),
    ensures
        unchanged == store,
        found.len() <= limit,
        ids_differ(found),
        forall|i: int|
            0 <= i < found.len() ==> is_stored(store, #[trigger] found[i]) && (holds_text(found[i].title, query)
                || found[i].body is Some && holds_text(found[i].body->0, query)),
        store.nodes.dom().finite() && mentioning(store, query).len() <= limit ==> forall|x: Seq<char>| #[trigger]
            mentions(store, query, x) ==> lists_id(found, x),
{
    law_search_finds_what_holds_the_text(store, query, limit as i64, after.last(), found);
    assert forall|i: int| 0 <= i < found.len() implies is_stored(store, #[trigger] found[i]) && (holds_text(
        found[i].title,
        query,
    ) || found[i].body is Some && holds_text(found[i].body->0, query)) by {
        assert(mentions(store, query, found[i].id));
    }
}

/// A text is made into a pattern character by character: a percent sign and an underscore
/// get a backslash in front of them, every other character stays as it is, and a percent
/// sign stands on either side.
pub proof fn law_pattern_is_made_character_by_character(first: Seq<char>, c: char, then: Seq<char>)
    ensures
        escaped(first + then) == escaped(first) + escaped(then),
        escaped(seq![c]) == if c == '%' || c == '_' {
            seq!['\\', c]
        } else {
            seq![c]
        },
        escaped(Seq::empty()).len() == 0,
        search_pattern(first) == seq!['%'] + escaped(first) + seq!['%'],
    decreases then.len(),
{
    reveal_with_fuel(escaped, 2);
    assert(seq![c].drop_last() =~= Seq::<char>::empty());
    assert(escaped(seq![c]) =~= if c == '%' || c == '_' {
        seq!['\\', c]
    } else {
        seq![c]
    });
    if then.len() == 0 {
        assert(first + then =~= first);
        assert(escaped(first) + escaped(then) =~= escaped(first));
    } else {
        let rest = then.drop_last();
        law_pattern_is_made_character_by_character(first, c, rest);
        assert((first + then).drop_last() =~= first + rest);
        assert((first + then).last() == then.last());
        assert(escaped(first + then) =~= escaped(first) + escaped(then));
    }
}

/// A search finds the most important of the nodes whose title or body holds the text: the
/// most important first, of equals the newest first, and none is left out that is more
/// important than one of them.
pub proof fn law_search_finds_the_most_important_first(
    before: Seq<Exchange>,
    after: Seq<Exchange>,
    query: Seq<char>,
    limit: usize,
    found: Seq<NodeV>,
    store: StoreV,
    unchanged: StoreV,
)
    requires
        tidy(store),
        scored(store),
        without_nul(store),
        !query.contains('\\'),
        !query.contains('\0'),
        limit <= i64::MAX,
        searches_text(before, after, query, limit, Ok(found)),
        does(store, after.last(), unchanged),
    ensures
        forall|i: int, j: int|
            0 <= i < j < found.len() ==> (#[trigger] found[i]).importance >= (#[trigger] found[j]).importance && (
            found[i].importance == found[j].importance ==> found[i].created_at >= found[j].created_at),
        forall|x: Seq<char>, i: int|
            mentions(store, query, x) && !(#[trigger] lists_id(found, x)) && 0 <= i < found.len() ==> (
            #[trigger] found[i]).importance >= store.nodes[x][4]->Real_0,
{
    let e = after.last();
    let pattern = search_pattern(query);
    lemma_no_nul_in_pattern(query);
    let among = |row: Seq<SqlV>| like_row(store, pattern, row);
    let rows = choose|rows: Seq<Seq<SqlV>>| #[trigger]
        answers(e.reply, rows) && some_of(rows, among, limit as i64) && weightiest(rows, among);
    assert forall|i: int| 0 <= i < rows.len() implies exists|x: Seq<char>| #[trigger]
        store.nodes.contains_key(x) && #[trigger] rows[i] == store.nodes[x] by {
        assert(among(rows[i]));
        assert(store.nodes.contains_value(rows[i]));
    }
    lemma_rows_are_nodes(store, e.reply, rows, found);
    assert forall|i: int| 0 <= i < found.len() implies {
        &&& rows[i][4] == SqlV::Real((#[trigger] found[i]).importance)
        &&& rows[i][7] == SqlV::Integer(found[i].created_at)
    } by {
        assert(is_stored(store, found[i]));
        assert(store.nodes.contains_key(found[i].id));
    }
    assert forall|i: int, j: int| 0 <= i < j < found.len() implies (#[trigger] found[i]).importance >= (
    #[trigger] found[j]).importance && (found[i].importance == found[j].importance ==> found[i].created_at
        >= found[j].created_at) by {
        assert(no_less(rows[i][4], rows[j][4]));
    }
    assert forall|x: Seq<char>, i: int|
        mentions(store, query, x) && !(#[trigger] lists_id(found, x)) && 0 <= i < found.len() implies (
    #[trigger] found[i]).importance >= store.nodes[x][4]->Real_0 by {
        let row = store.nodes[x];
        if row[2] is Text {
            law_search_pattern_fits_what_holds_the_text(query, row[2]->Text_0);
        }
        if row[3] is Text {
            law_search_pattern_fits_what_holds_the_text(query, row[3]->Text_0);
        }
        assert(store.nodes.contains_value(row));
        assert(among(row));
        assert(!rows.contains(row));
        assert(no_less(rows[i][4], row[4]));
    }
}

/// Setting the importance or the trust score of a node sets that column of that node, and
/// nothing else.
pub proof fn law_scores_are_set(
    before: Seq<Exchange>,
    after: Seq<Exchange>,
    id: Seq<char>,
    score: RealBits,
    store: StoreV,
    changed: StoreV,
    trust: bool,
)
    requires
        if trust {
            updates_trust(before, after, id, score, Ok(()))
        } else {
            updates_importance(before, after, id, score, Ok(()))
        },
        does(store, after.last(), changed),
        store.nodes.contains_key(id) ==> store.nodes[id].len() == 11,
    ensures
        !store.nodes.contains_key(id) ==> changed == store,
        store.nodes.contains_key(id) ==> changed == (StoreV {
            nodes: store.nodes.insert(
                id,
                store.nodes[id].update(
                    if trust {
                        5
                    } else {
                        4
                    },
                    SqlV::Real(score),
                ),
            ),
            ..store
        }),
{
}

/// An update sets the fields that are given, of that one node, and changes nothing else.
/// It tells whether there is such a node. Where no field is given, nothing is done.
pub proof fn law_fields_that_are_given_are_set(
    before: Seq<Exchange>,
    after: Seq<Exchange>,
    id: Seq<char>,
    kind: Option<NodeKind>,
    title: Option<Seq<char>>,
    body: Option<Seq<char>>,
    importance: Option<RealBits>,
    trust_score: Option<RealBits>,
    told: bool,
    store: StoreV,
    changed: StoreV,
)
    requires
        tidy(store),
        updates_fields(before, after, id, kind, title, body, importance, trust_score, Ok(told)),
        after.len() > before.len() ==> does(store, after.last(), changed),
        after.len() <= before.len() ==> changed == store,
    ensures
        kind is None && title is None && body is None && importance is None && trust_score is None ==> !told && after
            == before,
        kind is Some || title is Some || body is Some || importance is Some || trust_score is Some ==> told
            == store.nodes.contains_key(id) && after.len() == before.len() + 1,
        changed == (StoreV { nodes: changed.nodes, ..store }),
        changed.nodes.dom() == store.nodes.dom(),
        forall|x: Seq<char>|
            store.nodes.contains_key(x) && x != id ==> #[trigger] changed.nodes[x] == store.nodes[x],
        store.nodes.contains_key(id) && node_row(store.nodes[id]) is Ok ==> {
            let was = node_row(store.nodes[id])->Ok_0;
            let now = node_row(changed.nodes[id])->Ok_0;
            &&& node_row(changed.nodes[id]) is Ok
            &&& now.kind == kind.unwrap_or(was.kind)
            &&& now.title == title.unwrap_or(was.title)
            &&& now.body == if body is Some {
                body
            } else {
                was.body
            }
            &&& now.importance == importance.unwrap_or(was.importance)
            &&& now.trust_score == trust_score.unwrap_or(was.trust_score)
            &&& now.id == was.id
            &&& now.access_count == was.access_count
            &&& now.created_at == was.created_at
            &&& now.last_access == was.last_access
            &&& now.decay_rate == was.decay_rate
            &&& now.embedding == was.embedding
        },
{
    let sets = assignments(kind, title, body, importance, trust_score);
    if sets.len() > 0 {
        law_update_sets_what_is_given(
            store,
            after.last(),
            changed,
            id,
            kind,
            title,
            body,
            importance,
            trust_score,
        );
    }
}

/// A node that is deleted is gone, with the edges that leave or enter it and the
/// contradictions that name it, and nothing else. The result tells whether it was there.
pub proof fn law_deletion_leaves_nothing_of_a_node(
    store: StoreV,
    log: Seq<Exchange>,
    changed: StoreV,
    id: Seq<char>,
    told: bool,
)
    requires
        deletes_node(log, id, Ok(told)),
        runs(store, log, changed),
    ensures
        told == store.nodes.contains_key(id),
        changed.nodes == store.nodes.remove(id),
        forall|edge: Seq<SqlV>| #[trigger]
            changed.edges.contains(edge) <==> store.edges.contains(edge) && edge[1] != SqlV::Text(id) && edge[2]
                != SqlV::Text(id),
        forall|c: ContradictionV| #[trigger]
            changed.contradictions.contains(c) <==> store.contradictions.contains(c) && c.node_a != id && c.node_b
                != id,
        changed.sessions == store.sessions,
        changed.meta == store.meta,
{
    law_deleted_node_is_gone(store, log, changed, id);
    let ids = set![id];
    assert(ids.contains(id));
    assert(store.nodes.remove_keys(ids) =~= store.nodes.remove(id));
    assert forall|edge: Seq<SqlV>| #[trigger] changed.edges.contains(edge) <==> store.edges.contains(edge) && edge[1]
        != SqlV::Text(id) && edge[2] != SqlV::Text(id) by {
        if store.edges.contains(edge) && !changed.edges.contains(edge) {
            let x = choose|x: Seq<char>| #[trigger]
                ids.contains(x) && (edge[1] == SqlV::Text(x) || edge[2] == SqlV::Text(x));
            assert(x == id);
        }
    }
}

/// Nodes that are deleted together are gone, each as if it was deleted alone. The result
/// is how many there were.
pub proof fn law_deletion_leaves_nothing_of_several_nodes(
    store: StoreV,
    log: Seq<Exchange>,
    changed: StoreV,
    ids: Seq<Seq<char>>,
    told: usize,
)
    requires
        deletes_nodes(log, ids, Ok(told)),
        runs(store, log, changed),
        ids.len() <= usize::MAX,
    ensures
        told == ids.to_set().intersect(store.nodes.dom()).len(),
        forall|x: Seq<char>| #[trigger]
            changed.nodes.contains_key(x) <==> store.nodes.contains_key(x) && !ids.contains(x),
        forall|x: Seq<char>| #[trigger] changed.nodes.contains_key(x) ==> changed.nodes[x] == store.nodes[x],
        forall|edge: Seq<SqlV>| #[trigger]
            changed.edges.contains(edge) <==> store.edges.contains(edge) && forall|x: Seq<char>| #[trigger]
                ids.contains(x) ==> edge[1] != SqlV::Text(x) && edge[2] != SqlV::Text(x),
        forall|c: ContradictionV| #[trigger]
            changed.contradictions.contains(c) <==> store.contradictions.contains(c) && !ids.contains(c.node_a)
                && !ids.contains(c.node_b),
        changed.sessions == store.sessions,
        changed.meta == store.meta,
{
    law_deleted_nodes_are_gone(store, log, changed, ids);
    let set = ids.to_set();
    vstd::seq_lib::seq_to_set_is_finite(ids);
    ids.lemma_cardinality_of_set();
    let gone = set.intersect(store.nodes.dom());
    vstd::set_lib::lemma_len_subset(gone, set);
    assert forall|x: Seq<char>| set.contains(x) == #[trigger] ids.contains(x) by {}
    assert forall|edge: Seq<SqlV>| #[trigger] changed.edges.contains(edge) <==> store.edges.contains(edge) && forall|
        x: Seq<char>,
    | #[trigger] ids.contains(x) ==> edge[1] != SqlV::Text(x) && edge[2] != SqlV::Text(x) by {
        if changed.edges.contains(edge) {
            assert forall|x: Seq<char>| #[trigger] ids.contains(x) implies edge[1] != SqlV::Text(x) && edge[2]
                != SqlV::Text(x) by {
                assert(set.contains(x));
            }
        }
        if store.edges.contains(edge) && !changed.edges.contains(edge) {
            let x = choose|x: Seq<char>| #[trigger]
                set.contains(x) && (edge[1] == SqlV::Text(x) || edge[2] == SqlV::Text(x));
            assert(ids.contains(x));
        }
    }
}

/// IDs are found by what they start with: all that do, each once.
pub proof fn law_ids_are_found_by_their_start(
    before: Seq<Exchange>,
    after: Seq<Exchange>,
    prefix: Seq<char>,
    found: Seq<Seq<char>>,
    store: StoreV,
    unchanged: StoreV,
)
    requires
        finds_by_prefix(before, after, prefix, Ok(found)),
        does(store, after.last(), unchanged),
    ensures
        unchanged == store,
        found.no_duplicates(),
        forall|x: Seq<char>| #[trigger]
            found.contains(x) <==> store.nodes.contains_key(x) && prefix.len() <= x.len() && x.take(
                prefix.len() as int,
            ) == prefix,
{
    law_prefix_finds_what_starts_with_it(store, after.last(), prefix, found);
    assert forall|x: Seq<char>| #[trigger] found.contains(x) <==> store.nodes.contains_key(x) && prefix.len() <= x.len()
        && x.take(prefix.len() as int) == prefix by {
        if prefix.is_prefix_of(x) {
            assert(x.take(prefix.len() as int) =~= prefix);
        }
    }
}

/// The newest nodes are listed, of one kind where one is given, the newest first: as many
/// as there are up to the limit, and none is left out that is newer than one of them.
pub proof fn law_list_is_of_the_newest_nodes(
    before: Seq<Exchange>,
    after: Seq<Exchange>,
    kind: Option<NodeKind>,
    limit: usize,
    found: Seq<NodeV>,
    store: StoreV,
    unchanged: StoreV,
)
    requires
        tidy(store),
        limit <= i64::MAX,
        lists_nodes(before, after, kind, limit, Ok(found)),
        does(store, after.last(), unchanged),
    ensures
        unchanged == store,
        found.len() <= limit,
        ids_differ(found),
        forall|i: int|
            0 <= i < found.len() ==> is_stored_light(store, #[trigger] found[i]) && (kind is Some ==> found[i].kind
                == kind->0),
        forall|i: int, j: int|
            0 <= i < j < found.len() ==> (#[trigger] found[i]).created_at >= (#[trigger] found[j]).created_at,
        forall|x: Seq<char>| #[trigger]
            store.nodes.contains_key(x) && (kind is Some ==> store.nodes[x][1] == SqlV::Text(node_kind_name(kind->0)))
                && !lists_id(found, x) ==> found.len() == limit && forall|i: int|
                0 <= i < found.len() ==> (#[trigger] found[i]).created_at >= store.nodes[x][7]->Integer_0,
{
    law_newest_nodes_are_listed(store, kind, limit, after.last(), found);
    if kind is Some {
        lemma_node_kind_name_reads_back(kind->0);
    }
    assert forall|i: int| 0 <= i < found.len() implies is_stored_light(store, #[trigger] found[i]) && (kind is Some
        ==> found[i].kind == kind->0) by {
        assert(listed_as(store, kind, found[i].id));
        assert(store.nodes[found[i].id].take(10)[1] == store.nodes[found[i].id][1]);
    }
    assert forall|x: Seq<char>| #[trigger]
        store.nodes.contains_key(x) && (kind is Some ==> store.nodes[x][1] == SqlV::Text(node_kind_name(kind->0)))
            && !lists_id(found, x) implies found.len() == limit && forall|i: int|
        0 <= i < found.len() ==> (#[trigger] found[i]).created_at >= store.nodes[x][7]->Integer_0 by {
        assert(listed_as(store, kind, x));
    }
}

/// All nodes are loaded, each once, as they are stored but for their embeddings.
pub proof fn law_all_nodes_are_loaded(
    before: Seq<Exchange>,
    after: Seq<Exchange>,
    found: Seq<NodeV>,
    store: StoreV,
    unchanged: StoreV,
)
    requires
        tidy(store),
        gets_all_light(before, after, Ok(found)),
        does(store, after.last(), unchanged),
    ensures
        unchanged == store,
        ids_differ(found),
        forall|i: int| 0 <= i < found.len() ==> is_stored_light(store, #[trigger] found[i]),
        forall|x: Seq<char>| #[trigger] store.nodes.contains_key(x) ==> lists_id(found, x),
{
    law_every_node_is_loaded(store, after.last(), found);
}

/// All embeddings are loaded, each with the ID of its node.
pub proof fn law_all_embeddings_are_loaded(
    before: Seq<Exchange>,
    after: Seq<Exchange>,
    found: Seq<(Seq<char>, Seq<u8>)>,
    store: StoreV,
    unchanged: StoreV,
)
    requires
        tidy(store),
        gets_embeddings(before, after, Ok(found)),
        does(store, after.last(), unchanged),
    ensures
        unchanged == store,
        forall|i: int, j: int| 0 <= i < j < found.len() ==> (#[trigger] found[i]).0 != (#[trigger] found[j]).0,
        forall|x: Seq<char>, bytes: Seq<u8>| #[trigger]
            found.contains((x, bytes)) <==> store.nodes.contains_key(x) && store.nodes[x][10] is Blob && bytes == if (
            store.nodes[x][10]->Blob_0).len() % 4 == 0 {
                store.nodes[x][10]->Blob_0
            } else {
                Seq::empty()
            },
{
    law_every_embedding_is_loaded(store, after.last(), found);
}

/// The nodes that may decay are those with a decay rate that are of more importance than
/// a hundredth and were not accessed for a day, each with its importance, its decay rate
/// and when it was last accessed, or created where it never was.
pub proof fn law_rested_nodes_may_decay(
    before: Seq<Exchange>,
    after: Seq<Exchange>,
    now: i64,
    found: Seq<(Seq<char>, RealBits, RealBits, i64)>,
    store: StoreV,
    unchanged: StoreV,
)
    requires
        tidy(store),
        scored(store),
        i64::MIN + 86400 <= now,
        gets_decayable(before, after, now, Ok(found)),
        does(store, after.last(), unchanged),
    ensures
        unchanged == store,
        forall|i: int, j: int| 0 <= i < j < found.len() ==> (#[trigger] found[i]).0 != (#[trigger] found[j]).0,
        forall|i: int|
            0 <= i < found.len() ==> {
                let row = store.nodes[(#[trigger] found[i]).0];
                &&& store.nodes.contains_key(found[i].0)
                &&& row[9]->Real_0 > 0
                &&& row[4]->Real_0 > 0x3f84_7ae1_47ae_147b
                &&& row[8] is Null || row[8]->Integer_0 < now - 86400
                &&& row[4] == SqlV::Real(found[i].1)
                &&& row[9] == SqlV::Real(found[i].2)
                &&& SqlV::Integer(found[i].3) == if row[8] is Null {
                    row[7]
                } else {
                    row[8]
                }
            },
        forall|x: Seq<char>| #[trigger]
            store.nodes.contains_key(x) && store.nodes[x][9]->Real_0 > 0 && store.nodes[x][4]->Real_0
                > 0x3f84_7ae1_47ae_147b && (store.nodes[x][8] is Null || store.nodes[x][8]->Integer_0 < now - 86400)
                ==> exists|i: int| 0 <= i < found.len() && (#[trigger] found[i]).0 == x,
{
    let e = after.last();
    let since = (now - 86400) as i64;
    let among = |row: Seq<SqlV>|
        exists|x: Seq<char>| #[trigger]
            store.nodes.contains_key(x) && may_decay(store.nodes[x], since) && row == seq![
                store.nodes[x][0],
                store.nodes[x][4],
                store.nodes[x][9],
                last_used(store.nodes[x]),
            ];
    let rows = choose|rows: Seq<Seq<SqlV>>| #[trigger]
        answers(e.reply, rows) && rows.no_duplicates() && forall|row: Seq<SqlV>| #[trigger]
            rows.contains(row) <==> among(row);
    let views = rows_of(e.reply)->Ok_0;
    law_all_rows_are_read(views, |row: Seq<SqlV>| decayable_row(row));
    assert forall|i: int| 0 <= i < found.len() implies {
        let row = store.nodes[(#[trigger] found[i]).0];
        &&& store.nodes.contains_key(found[i].0)
        &&& may_decay(row, since)
        &&& rows[i] == seq![SqlV::Text(found[i].0), row[4], row[9], last_used(row)]
        &&& row[4] == SqlV::Real(found[i].1)
        &&& row[9] == SqlV::Real(found[i].2)
        &&& SqlV::Integer(found[i].3) == last_used(row)
    } by {
        assert(views[i] == RowV::Ok(rows[i]));
        assert(rows.contains(rows[i]));
        let x = choose|x: Seq<char>| #[trigger]
            store.nodes.contains_key(x) && may_decay(store.nodes[x], since) && rows[i] == seq![
                store.nodes[x][0],
                store.nodes[x][4],
                store.nodes[x][9],
                last_used(store.nodes[x]),
            ];
        assert(rows[i][0] == SqlV::Text(x));
        assert(rows[i][1] == store.nodes[x][4] && rows[i][2] == store.nodes[x][9] && rows[i][3] == last_used(
            store.nodes[x],
        ));
    }
    assert forall|i: int, j: int| 0 <= i < j < found.len() implies (#[trigger] found[i]).0 != (#[trigger] found[j]).0 by {
        assert(rows[i] != rows[j]);
    }
    assert forall|x: Seq<char>| #[trigger]
        store.nodes.contains_key(x) && store.nodes[x][9]->Real_0 > 0 && store.nodes[x][4]->Real_0
            > 0x3f84_7ae1_47ae_147b && (store.nodes[x][8] is Null || store.nodes[x][8]->Integer_0 < now - 86400) implies exists|
        i: int,
    | 0 <= i < found.len() && (#[trigger] found[i]).0 == x by {
        let row = seq![
            store.nodes[x][0],
            store.nodes[x][4],
            store.nodes[x][9],
            last_used(store.nodes[x]),
        ];
        assert(among(row));
        assert(rows.contains(row));
        let i = rows.index_of(row);
        assert(row[0] == SqlV::Text(x));
        assert(rows[i][0] == SqlV::Text(found[i].0));
    }
}

/// The notifications that wait for a session are found, the oldest first: those that are
/// part of it and were never accessed.
pub proof fn law_waiting_notifications_are_found(
    before: Seq<Exchange>,
    after: Seq<Exchange>,
    session: Seq<char>,
    found: Seq<NodeV>,
    store: StoreV,
    unchanged: StoreV,
)
    requires
        tidy(store),
        gets_pending(before, after, session, Ok(found)),
        does(store, after.last(), unchanged),
    ensures
        unchanged == store,
        forall|i: int|
            0 <= i < found.len() ==> {
                let n = #[trigger] found[i];
                &&& is_stored_light(store, n)
                &&& n.kind == NodeKind::Notification
                &&& n.access_count == 0
                &&& linked(store, SqlV::Text(n.id), SqlV::Text(session), SqlV::Text("part_of"@))
            },
        forall|x: Seq<char>| #[trigger]
            store.nodes.contains_key(x) && store.nodes[x][1] == SqlV::Text("notification"@) && store.nodes[x][6]
                == SqlV::Integer(0) && linked(store, SqlV::Text(x), SqlV::Text(session), SqlV::Text("part_of"@))
                ==> lists_id(found, x),
        forall|i: int, j: int|
            0 <= i < j < found.len() ==> (#[trigger] found[i]).created_at <= (#[trigger] found[j]).created_at,
{
    law_pending_notifications_are_found(store, after.last(), session, found);
    assert forall|i: int| 0 <= i < found.len() implies {
        let n = #[trigger] found[i];
        &&& is_stored_light(store, n)
        &&& n.kind == NodeKind::Notification
        &&& n.access_count == 0
        &&& linked(store, SqlV::Text(n.id), SqlV::Text(session), SqlV::Text("part_of"@))
    } by {
        assert(found.contains(found[i]));
    }
    assert forall|x: Seq<char>| #[trigger]
        store.nodes.contains_key(x) && store.nodes[x][1] == SqlV::Text("notification"@) && store.nodes[x][6]
            == SqlV::Integer(0) && linked(store, SqlV::Text(x), SqlV::Text(session), SqlV::Text("part_of"@)) implies lists_id(
        found,
        x,
    ) by {
        assert(pending(store, SqlV::Text(session), x));
        let n = choose|n: NodeV| #[trigger] found.contains(n) && n.id == x;
        assert(found[found.index_of(n)].id == x);
    }
}

/// The newest inputs and facts that hang directly under a session are found, the newest
/// first, at most as many as the limit, and none is left out that is newer than one of
/// them.
pub proof fn law_newest_inputs_and_facts_are_found(
    before: Seq<Exchange>,
    after: Seq<Exchange>,
    session: Seq<char>,
    limit: usize,
    found: Seq<NodeV>,
    store: StoreV,
    unchanged: StoreV,
)
    requires
        tidy(store),
        limit <= i64::MAX,
        gets_recent(before, after, session, limit, Ok(found)),
        does(store, after.last(), unchanged),
    ensures
        unchanged == store,
        found.len() <= limit,
        ids_differ(found),
        forall|i: int|
            0 <= i < found.len() ==> {
                let n = #[trigger] found[i];
                &&& is_stored(store, n)
                &&& n.kind == NodeKind::UserInput || n.kind == NodeKind::Fact
                &&& linked(store, SqlV::Text(n.id), SqlV::Text(session), SqlV::Text("part_of"@)) || linked(
                    store,
                    SqlV::Text(n.id),
                    SqlV::Text(session),
                    SqlV::Text("derives_from"@),
                )
            },
        forall|i: int, j: int|
            0 <= i < j < found.len() ==> (#[trigger] found[i]).created_at >= (#[trigger] found[j]).created_at,
        forall|x: Seq<char>| #[trigger]
            store.nodes.contains_key(x) && (store.nodes[x][1] == SqlV::Text("user_input"@) || store.nodes[x][1]
                == SqlV::Text("fact"@)) && hangs_under(store, SqlV::Text(x), SqlV::Text(session)) && !lists_id(found, x)
                ==> found.len() == limit && forall|i: int|
                0 <= i < found.len() ==> (#[trigger] found[i]).created_at >= store.nodes[x][7]->Integer_0,
{
    law_newest_nodes_of_a_session_are_found(store, after.last(), session, limit as i64, found);
    lemma_node_kind_name_reads_back(NodeKind::UserInput);
    lemma_node_kind_name_reads_back(NodeKind::Fact);
    assert forall|i: int| 0 <= i < found.len() implies {
        let n = #[trigger] found[i];
        &&& is_stored(store, n)
        &&& n.kind == NodeKind::UserInput || n.kind == NodeKind::Fact
        &&& linked(store, SqlV::Text(n.id), SqlV::Text(session), SqlV::Text("part_of"@)) || linked(
            store,
            SqlV::Text(n.id),
            SqlV::Text(session),
            SqlV::Text("derives_from"@),
        )
    } by {
        assert(recent(store, SqlV::Text(session), found[i].id));
    }
    assert forall|x: Seq<char>| #[trigger]
        store.nodes.contains_key(x) && (store.nodes[x][1] == SqlV::Text("user_input"@) || store.nodes[x][1]
            == SqlV::Text("fact"@)) && hangs_under(store, SqlV::Text(x), SqlV::Text(session)) && !lists_id(found, x) implies found.len()
        == limit && forall|i: int|
        0 <= i < found.len() ==> (#[trigger] found[i]).created_at >= store.nodes[x][7]->Integer_0 by {
        assert(recent(store, SqlV::Text(session), x));
    }
}

/// An access to some nodes is counted once for each of them, with the time, and nothing
/// else changes.
pub proof fn law_access_is_counted(
    store: StoreV,
    log: Seq<Exchange>,
    changed: StoreV,
    now: i64,
    ids: Seq<Seq<char>>,
)
    requires
        touches(log, now, ids, Ok(())),
        runs(store, log, changed),
        ids.no_duplicates(),
        forall|x: Seq<char>| #[trigger]
            store.nodes.contains_key(x) ==> store.nodes[x].len() == 11 && store.nodes[x][6] is Integer
                && store.nodes[x][6]->Integer_0 < i64::MAX,
    ensures
        changed == (StoreV { nodes: changed.nodes, ..store }),
        changed.nodes.dom() == store.nodes.dom(),
        forall|x: Seq<char>|
            store.nodes.contains_key(x) && !ids.contains(x) ==> #[trigger] changed.nodes[x] == store.nodes[x],
        forall|x: Seq<char>|
            store.nodes.contains_key(x) && ids.contains(x) ==> #[trigger] changed.nodes[x] == store.nodes[x].update(
                6,
                SqlV::Integer((store.nodes[x][6]->Integer_0 + 1) as i64),
            ).update(8, SqlV::Integer(now)),
{
    let one = lemma_runs_split(store, log, changed, 1);
    lemma_runs_one(store, log.take(1), one);
    assert(log.take(1)[0] == log[0]);
    lemma_accesses(store, log.skip(1), changed, now, ids);
}

/// The accesses that follow the compilation of the statement.
proof fn lemma_accesses(store: StoreV, log: Seq<Exchange>, changed: StoreV, now: i64, ids: Seq<Seq<char>>)
    requires
        went_through(log, touch_statements(now, ids)),
        runs(store, log, changed),
        ids.no_duplicates(),
        forall|x: Seq<char>| #[trigger]
            store.nodes.contains_key(x) ==> store.nodes[x].len() == 11 && store.nodes[x][6] is Integer
                && store.nodes[x][6]->Integer_0 < i64::MAX,
    ensures
        changed == (StoreV { nodes: changed.nodes, ..store }),
        changed.nodes.dom() == store.nodes.dom(),
        forall|x: Seq<char>|
            store.nodes.contains_key(x) && !ids.contains(x) ==> #[trigger] changed.nodes[x] == store.nodes[x],
        forall|x: Seq<char>|
            store.nodes.contains_key(x) && ids.contains(x) ==> #[trigger] changed.nodes[x] == store.nodes[x].update(
                6,
                SqlV::Integer((store.nodes[x][6]->Integer_0 + 1) as i64),
            ).update(8, SqlV::Integer(now)),
    decreases log.len(),
{
    if log.len() == 0 {
        lemma_runs_none(store, log, changed);
    } else {
        let k = log.len() - 1;
        let middle = lemma_runs_split(store, log, changed, k);
        let head = ids.take(k);
        let id = ids[k];
        assert forall|i: int| 0 <= i < log.take(k).len() implies {
            &&& (#[trigger] log.take(k)[i]).statement == touch_statements(now, head)[i]
            &&& log.take(k)[i].reply is Changed
            &&& completed(log.take(k)[i].reply) is Ok
        } by {
            assert(log.take(k)[i] == log[i]);
        }
        lemma_accesses(store, log.take(k), middle, now, head);
        lemma_runs_one(middle, log.skip(k), changed);
        assert(log.skip(k)[0] == log[k]);
        assert(log[k].statement == touch_statements(now, ids)[k]);
        assert forall|x: Seq<char>| ids.contains(x) <==> head.contains(x) || x == id by {
            if ids.contains(x) {
                let i = ids.index_of(x);
                if i < k {
                    assert(head[i] == x);
                }
            }
            if head.contains(x) {
                assert(ids[head.index_of(x)] == x);
            }
        }
        assert(!head.contains(id)) by {
            if head.contains(id) {
                assert(ids[head.index_of(id)] == id);
            }
        }
        assert forall|x: Seq<char>|
            store.nodes.contains_key(x) && ids.contains(x) implies #[trigger] changed.nodes[x] == store.nodes[x].update(
            6,
            SqlV::Integer((store.nodes[x][6]->Integer_0 + 1) as i64),
        ).update(8, SqlV::Integer(now)) by {
            assert(middle.nodes.contains_key(x));
            if x == id {
                assert(middle.nodes[x] == store.nodes[x]);
            }
        }
        assert forall|x: Seq<char>|
            store.nodes.contains_key(x) && !ids.contains(x) implies #[trigger] changed.nodes[x] == store.nodes[x] by {
            assert(middle.nodes.contains_key(x));
            assert(middle.nodes[x] == store.nodes[x]);
        }
    }
}

/// A value that was set under a key is read back, and where none was set none is read.
pub proof fn law_values_are_kept_by_key(
    before: Seq<Exchange>,
    after: Seq<Exchange>,
    key: Seq<char>,
    value: Seq<char>,
    store: StoreV,
    changed: StoreV,
    before2: Seq<Exchange>,
    after2: Seq<Exchange>,
    key2: Seq<char>,
    found: Option<Seq<char>>,
    unchanged: StoreV,
)
    requires
        sets_meta(before, after, key, value, Ok(())),
        does(store, after.last(), changed),
        gets_meta(before2, after2, key2, Ok(found)),
        does(changed, after2.last(), unchanged),
    ensures
        changed == (StoreV { meta: store.meta.insert(key, value), ..store }),
        unchanged == changed,
        found == if key2 == key {
            Some(value)
        } else if store.meta.contains_key(key2) {
            Some(store.meta[key2])
        } else {
            None
        },
{
}

/// Nodes are counted.
pub proof fn law_nodes_are_counted(
    before: Seq<Exchange>,
    after: Seq<Exchange>,
    n: i64,
    store: StoreV,
    unchanged: StoreV,
)
    requires
        counts_nodes(before, after, Ok(n)),
        does(store, after.last(), unchanged),
    ensures
        unchanged == store,
        n == store.nodes.len(),
{
}

}
