//! What compaction is for: what a model is shown, what is made of its reply, and what
//! is left of it in the store.

use vstd::prelude::*;

use super::text::{law_numeral_has_its_value, value_of};
use crate::compaction::{
    conversation, extracted_facts, extraction, fact_node, facts_in, finishes, stores, storing, ExtractedV,
};
use crate::db::rows::Read;
use crate::db::{Exchange, ReplyV, SqlV};
use crate::json::{field, parsed, JsonV};
use crate::store::{does, lemma_runs_two, runs, StoreV};
use crate::text::decimal;
use crate::types::{EdgeSeed, MessageV, NodeKind, NodeSeed, Role};

verus! {

/// A conversation is put into words message by message, in its order.
pub proof fn law_conversation_is_told_in_order(first: Seq<MessageV>, then: Seq<MessageV>)
    ensures
        conversation(first + then) == conversation(first) + conversation(then),
    decreases then.len(),
{
    if then.len() == 0 {
        assert(first + then =~= first);
        assert(conversation(first) + conversation(then) =~= conversation(first));
    } else {
        let rest = then.drop_last();
        law_conversation_is_told_in_order(first, rest);
        assert((first + then).drop_last() =~= first + rest);
        assert((first + then).last() == then.last());
        assert(conversation(first + then) =~= conversation(first) + conversation(then));
    }
}

/// A message is told as the role that wrote it, in brackets, a colon, what it says, and
/// an empty line.
pub proof fn law_message_is_told_with_its_role(message: MessageV)
    ensures
        conversation(seq![message]) == "["@ + (match message.role {
            Role::System => "system"@,
            Role::User => "user"@,
            Role::Assistant => "assistant"@,
            Role::Tool => "tool"@,
        }) + "]: "@ + message.content + "\n\n"@,
        conversation(Seq::empty()).len() == 0,
{
    reveal_with_fuel(conversation, 2);
    assert(seq![message].drop_last() =~= Seq::<MessageV>::empty());
    assert(Seq::<char>::empty() + "["@ =~= "["@);
}

/// A model is asked with two messages: the first, from the system, sets its task, which
/// is to answer with a list of facts as JSON, and the second, from the user, holds the
/// conversation and nothing else but a line in front of it.
pub proof fn law_model_is_shown_the_conversation(messages: Seq<MessageV>)
    ensures
        extraction(messages).len() == 2,
        extraction(messages)[0].role == Role::System,
        extraction(messages)[0].content
            == "You are a fact extraction system. Given a conversation history, extract the key facts, decisions, and conclusions as a JSON array of objects. Each object must have:\n- \"title\": a short (3-10 word) title for the fact\n- \"body\": a 1-2 sentence statement of the fact, decision, or conclusion\n- \"kind\": one of \"fact\", \"decision\", \"pattern\", \"goal\"\n\nReturn ONLY valid JSON. No markdown, no explanation. Example:\n[{\"title\": \"JWT tokens expire in 1h\", \"body\": \"The API uses JWT tokens with a 1-hour expiry.\", \"kind\": \"fact\"}]"@,
        extraction(messages)[1].role == Role::User,
        extraction(messages)[1].content == "Extract key facts from this conversation:\n\n"@ + conversation(messages),
{
}

/// The text of a field, or another text where there is none.
pub open spec fn text_else(value: JsonV, key: Seq<char>, other: Seq<char>) -> Seq<char> {
    match field(value, key) {
        Some(JsonV::Text(text)) => text,
        _ => other,
    }
}

/// A reply that is a list gives one fact for each of its items, in their order, with the
/// title and the body of the item and the kind that it names. A reply that is no list,
/// or no JSON, gives none.
pub proof fn law_each_item_of_a_reply_is_a_fact(reply: Seq<char>)
    ensures
        match parsed(reply) {
            Some(JsonV::Array(items)) => {
                &&& extracted_facts(reply).len() == items.len()
                &&& forall|i: int|
                    0 <= i < items.len() ==> {
                        let fact = #[trigger] extracted_facts(reply)[i];
                        let name = text_else(items[i], "kind"@, "fact"@);
                        &&& fact.title == text_else(items[i], "title"@, "Extracted fact"@)
                        &&& fact.body == text_else(items[i], "body"@, Seq::empty())
                        &&& name == "decision"@ <==> fact.kind == NodeKind::Decision
                        &&& name == "pattern"@ <==> fact.kind == NodeKind::Pattern
                        &&& name == "goal"@ <==> fact.kind == NodeKind::Goal
                        &&& name != "decision"@ && name != "pattern"@ && name != "goal"@ <==> fact.kind
                            == NodeKind::Fact
                    }
            },
            _ => extracted_facts(reply).len() == 0,
        },
        forall|other: JsonV|
            !(other is Array) ==> (#[trigger] facts_in(Some(other))).len() == 0,
        facts_in(None).len() == 0,
        facts_in(parsed(reply)) == extracted_facts(reply),
{
    lemma_kinds_differ();
    reveal_strlit("");
    assert(""@ =~= Seq::<char>::empty());
}

/// The kinds of extracted facts have different names.
proof fn lemma_kinds_differ()
    ensures
        "decision"@ != "pattern"@,
        "decision"@ != "goal"@,
        "decision"@ != "fact"@,
        "pattern"@ != "goal"@,
        "pattern"@ != "fact"@,
        "goal"@ != "fact"@,
{
    reveal_strlit("decision");
    reveal_strlit("pattern");
    reveal_strlit("goal");
    reveal_strlit("fact");
    assert("decision"@[0] == 'd');
    assert("pattern"@[0] == 'p');
    assert("goal"@[0] == 'g');
    assert("fact"@[0] == 'f');
}

/// Each item of a model's reply is kept as the item says: the facts are stored in the
/// order of the items, and the node of the next one has the kind that its item names,
/// and is a fact where it names none or another one. It has the item's title and body,
/// the ID, the time, the scores and the embedding that it is given, and an edge to the
/// session that it derives from, where the ID of the edge is new.
pub proof fn law_item_of_a_reply_is_kept_as_it_says(
    before: StoreV,
    log: Seq<Exchange>,
    after: StoreV,
    reply: Seq<char>,
    items: Seq<JsonV>,
    k: int,
    session: Seq<char>,
    embedding: Seq<u8>,
    seed: NodeSeed,
    edge: EdgeSeed,
    id: Option<Seq<char>>,
    left: Seq<ExtractedV>,
    more: int,
)
    requires
        parsed(reply) == Some(JsonV::Array(items)),
        0 <= k < items.len(),
        stores(log, session, extracted_facts(reply).skip(k), embedding, seed, edge, Ok(id), left, more),
        runs(before, log, after),
    ensures
        id == Some(seed.id@),
        more == 1,
        left == extracted_facts(reply).skip(k + 1),
        !before.nodes.contains_key(seed.id@),
        ({
            let item = items[k];
            let name = text_else(item, "kind"@, "fact"@);
            let kind = if name == "decision"@ || name == "pattern"@ || name == "goal"@ {
                name
            } else {
                "fact"@
            };
            after.nodes == before.nodes.insert(
                seed.id@,
                seq![
                    SqlV::Text(seed.id@),
                    SqlV::Text(kind),
                    SqlV::Text(text_else(item, "title"@, "Extracted fact"@)),
                    SqlV::Text(text_else(item, "body"@, Seq::empty())),
                    SqlV::Real(seed.scores.importance),
                    SqlV::Real(seed.scores.trust_score),
                    SqlV::Integer(0),
                    SqlV::Integer(seed.now),
                    SqlV::Null,
                    SqlV::Real(seed.scores.decay_rate),
                    SqlV::Blob(embedding),
                ],
            )
        }),
        after.edges == if log[1].reply == ReplyV::Changed(Ok(0)) {
            before.edges
        } else {
            before.edges.insert(
                seq![
                    SqlV::Text(edge.id@),
                    SqlV::Text(seed.id@),
                    SqlV::Text(session),
                    SqlV::Text("derives_from"@),
                    SqlV::Real(edge.weight),
                    SqlV::Integer(edge.now),
                    SqlV::Null,
                ],
            )
        },
        after.contradictions == before.contradictions,
        after.sessions == before.sessions,
        after.meta == before.meta,
{
    law_each_item_of_a_reply_is_a_fact(reply);
    let facts = extracted_facts(reply);
    let rest = facts.skip(k);
    assert(rest.first() == facts[k]);
    assert(rest.skip(1) =~= facts.skip(k + 1));
    let node = fact_node(rest.first(), seed.id@, seed.now, seed.scores, embedding);
    let statements = storing(session, node, edge.id@, edge.now, edge.weight);
    let one = lemma_runs_two(before, log, after);
    assert(log[0].statement == statements[0]);
    assert(log[1].statement == statements[1]);
}

/// Where no fact is left, nothing is stored. A fact that could not be stored is still
/// to be stored, and does not count.
pub proof fn law_facts_are_counted_as_they_are_stored(
    log: Seq<Exchange>,
    session: Seq<char>,
    facts: Seq<ExtractedV>,
    embedding: Seq<u8>,
    seed: NodeSeed,
    edge: EdgeSeed,
    r: Read<Option<Seq<char>>>,
    left: Seq<ExtractedV>,
    more: int,
)
    requires
        stores(log, session, facts, embedding, seed, edge, r, left, more),
    ensures
        left.len() + more == facts.len(),
        left == facts.skip(more),
        more == if facts.len() > 0 && r is Ok {
            1int
        } else {
            0int
        },
        facts.len() == 0 <==> r == Read::<Option<Seq<char>>>::Ok(None),
        facts.len() == 0 ==> log.len() == 0,
{
    assert(facts.skip(0) =~= facts);
}

/// A text of decimal digits.
pub open spec fn all_digits(numeral: Seq<char>) -> bool {
    forall|i: int| 0 <= i < numeral.len() ==> '0' <= #[trigger] numeral[i] <= '9'
}

/// A store after the body of a session was marked with a numeral.
pub open spec fn marked(store: StoreV, session: Seq<char>, numeral: Seq<char>) -> StoreV {
    let body = match store.nodes[session][3] {
        SqlV::Text(body) => body,
        _ => Seq::empty(),
    };
    let row = store.nodes[session].update(
        3,
        SqlV::Text(body + ("\n\n[Compacted. "@ + numeral + " facts extracted.]"@)),
    );
    StoreV { nodes: store.nodes.insert(session, row), ..store }
}

/// A compaction that stored facts adds to the body of the session how many, as a decimal
/// numeral, and changes nothing else. One that stored none asks nothing of the database.
pub proof fn law_session_tells_how_many_facts_were_extracted(
    before: Seq<Exchange>,
    after: Seq<Exchange>,
    store: StoreV,
    changed: StoreV,
    session: Seq<char>,
    count: nat,
    r: usize,
)
    requires
        finishes(before, after, session, count, Ok(r)),
        count > 0 ==> does(store, after.last(), changed),
        count == 0 ==> changed == store,
        store.nodes.contains_key(session),
        store.nodes[session].len() == 11,
    ensures
        r == count,
        count == 0 ==> after == before,
        count > 0 ==> after.len() == before.len() + 1,
        count > 0 ==> exists|numeral: Seq<char>| #[trigger]
            value_of(numeral) == count && all_digits(numeral) && changed == marked(store, session, numeral),
{
    law_numeral_has_its_value(count);
    if count > 0 {
        assert(value_of(decimal(count)) == count);
    }
}

}
