//! What the server is for: which request comes to which result, and how a response
//! tells it.

use vstd::prelude::*;

use super::provider::{
    field_else, has_only, law_action_on_memory_is_valid, law_observation_counts_the_nodes,
    law_settings_are_the_company_and_the_path, law_status_tells_whether_it_is_configured,
};
use crate::db::rows::{count_of, Read};
use crate::db::{continues, history, since};
use crate::error::{fault_text, sqlite_text, FaultV};
use crate::json::{field, parsed, rendered, JsonV};
use crate::omniseed_provider::{initialization_json, invokes, observes, OmnicedeProvider};
use crate::rpc::{
    answers, answers_line, error_json, law_initialized_provider_is_ready, reply_json, response_json, serves, Reply,
};
use crate::store::{counts_to, does, StoreV};
use crate::types::Scores;

verus! {

/// A response tells the result of the request with an ID.
pub open spec fn results_in(response: JsonV, id: JsonV, value: JsonV) -> bool {
    &&& field(response, "jsonrpc"@) == Some(JsonV::Text("2.0"@))
    &&& field(response, "id"@) == Some(id)
    &&& field(response, "result"@) == Some(value)
    &&& field(response, "error"@) is None
}

/// A response tells by a code and a message why the request with an ID failed.
pub open spec fn fails_with(response: JsonV, id: JsonV, code: int, message: Seq<char>) -> bool {
    let error = field_else(response, "error"@, JsonV::Null);
    &&& field(response, "jsonrpc"@) == Some(JsonV::Text("2.0"@))
    &&& field(response, "id"@) == Some(id)
    &&& field(response, "result"@) is None
    &&& field(error, "code"@) == Some(JsonV::Integer(code))
    &&& field(error, "message"@) == Some(JsonV::Text(message))
}

/// A response tells what a request came to, or why it failed.
pub proof fn law_response_tells_what_a_request_came_to(
    id: JsonV,
    value: JsonV,
    code: i64,
    message: Seq<char>,
)
    ensures
        results_in(reply_json(id, Ok(value)), id, value),
        fails_with(reply_json(id, Err(message)), id, -32000, message),
        fails_with(response_json(id, None, Some(error_json(code, message))), id, code as int, message),
        results_in(response_json(id, Some(value), None), id, value),
        has_only(reply_json(id, Ok(value)), set!["jsonrpc"@, "id"@, "result"@]),
        has_only(reply_json(id, Err(message)), set!["jsonrpc"@, "id"@, "error"@]),
        has_only(error_json(code, message), set!["code"@, "message"@]),
{
    reveal_strlit("id");
    reveal_strlit("jsonrpc");
    reveal_strlit("result");
    reveal_strlit("error");
    reveal_strlit("code");
    reveal_strlit("message");
    assert("id"@.len() == 2);
    assert("jsonrpc"@.len() == 7);
    assert("result"@.len() == 6);
    assert("error"@.len() == 5);
    assert("code"@.len() == 4);
    assert("message"@.len() == 7);
}

/// What an error says: the message of an unacceptable request or of a channel is shown
/// as it is, and so is the text of an error of the database.
pub proof fn law_message_is_shown_as_it_is(message: Seq<char>, e: rusqlite::Error)
    ensures
        fault_text(FaultV::Config(message)) == message,
        fault_text(FaultV::Channel(message)) == message,
        fault_text(FaultV::Sqlite(e)) == sqlite_text(e),
{
}

/// The methods have different names.
proof fn lemma_methods_differ()
    ensures
        "provider.shutdown"@ != "provider.initialize"@,
        "provider.status"@ != "provider.initialize"@,
        "provider.status"@ != "provider.shutdown"@,
        "provider.validate"@ != "provider.initialize"@,
        "provider.validate"@ != "provider.shutdown"@,
        "provider.validate"@ != "provider.status"@,
        "provider.plan"@ != "provider.initialize"@,
        "provider.plan"@ != "provider.shutdown"@,
        "provider.plan"@ != "provider.status"@,
        "provider.plan"@ != "provider.validate"@,
        "provider.apply"@ != "provider.initialize"@,
        "provider.apply"@ != "provider.shutdown"@,
        "provider.apply"@ != "provider.status"@,
        "provider.apply"@ != "provider.validate"@,
        "provider.apply"@ != "provider.plan"@,
        "provider.observe"@ != "provider.initialize"@,
        "provider.observe"@ != "provider.shutdown"@,
        "provider.observe"@ != "provider.status"@,
        "provider.observe"@ != "provider.validate"@,
        "provider.observe"@ != "provider.plan"@,
        "provider.observe"@ != "provider.apply"@,
        "provider.invoke"@ != "provider.initialize"@,
        "provider.invoke"@ != "provider.shutdown"@,
        "provider.invoke"@ != "provider.status"@,
        "provider.invoke"@ != "provider.validate"@,
        "provider.invoke"@ != "provider.plan"@,
        "provider.invoke"@ != "provider.apply"@,
        "provider.invoke"@ != "provider.observe"@,
{
    reveal_strlit("provider.initialize");
    reveal_strlit("provider.status");
    reveal_strlit("provider.validate");
    reveal_strlit("provider.plan");
    reveal_strlit("provider.apply");
    reveal_strlit("provider.observe");
    reveal_strlit("provider.invoke");
    reveal_strlit("provider.shutdown");
    assert("provider.initialize"@.len() == 19);
    assert("provider.status"@.len() == 15 && "provider.status"@[9] == 's');
    assert("provider.validate"@.len() == 17 && "provider.validate"@[9] == 'v');
    assert("provider.plan"@.len() == 13);
    assert("provider.apply"@.len() == 14);
    assert("provider.observe"@.len() == 16);
    assert("provider.invoke"@.len() == 15 && "provider.invoke"@[9] == 'i');
    assert("provider.shutdown"@.len() == 17 && "provider.shutdown"@[9] == 's');
}

/// A method is one of the eight of the protocol.
pub open spec fn of_the_protocol(method: Seq<char>) -> bool {
    ||| method == "provider.initialize"@
    ||| method == "provider.status"@
    ||| method == "provider.validate"@
    ||| method == "provider.plan"@
    ||| method == "provider.apply"@
    ||| method == "provider.observe"@
    ||| method == "provider.invoke"@
    ||| method == "provider.shutdown"@
}

/// A request without a method, or with one that is not in the protocol, is refused and
/// changes nothing. Before a provider is there, so is any other but the ones to
/// initialize and to shut down.
pub proof fn law_requests_that_are_refused(
    before: Option<OmnicedeProvider>,
    after: Option<OmnicedeProvider>,
    request: JsonV,
    now: i64,
    stamp: Seq<char>,
    scores: Scores,
    response: JsonV,
)
    requires
        answers(before, after, request, now, stamp, scores, response),
    ensures
        ({
            let id = field_else(request, "id"@, JsonV::Null);
            let method = field_else(request, "method"@, JsonV::Null);
            if !(method is Text) || !of_the_protocol(method->Text_0) {
                after == before && fails_with(response, id, -32601, "Method not found"@)
            } else if before is None && method->Text_0 != "provider.initialize"@ && method->Text_0
                != "provider.shutdown"@ {
                after is None && fails_with(response, id, -32000, "Provider is not initialized"@)
            } else {
                true
            }
        }),
{
    let id = field_else(request, "id"@, JsonV::Null);
    reveal_strlit("");
    reveal_strlit("provider.initialize");
    reveal_strlit("provider.status");
    reveal_strlit("provider.validate");
    reveal_strlit("provider.plan");
    reveal_strlit("provider.apply");
    reveal_strlit("provider.observe");
    reveal_strlit("provider.invoke");
    reveal_strlit("provider.shutdown");
    assert(""@.len() == 0);
    assert("provider.initialize"@.len() > 0 && "provider.status"@.len() > 0 && "provider.validate"@.len() > 0);
    assert("provider.plan"@.len() > 0 && "provider.apply"@.len() > 0 && "provider.observe"@.len() > 0);
    assert("provider.invoke"@.len() > 0 && "provider.shutdown"@.len() > 0);
    law_response_tells_what_a_request_came_to(id, JsonV::Null, -32601 as i64, "Method not found"@);
    law_response_tells_what_a_request_came_to(id, JsonV::Null, -32000 as i64, "Provider is not initialized"@);
}

/// A request to shut down is granted and changes nothing, whether there is a provider or
/// not.
pub proof fn law_shutdown_is_granted(
    before: Option<OmnicedeProvider>,
    after: Option<OmnicedeProvider>,
    request: JsonV,
    now: i64,
    stamp: Seq<char>,
    scores: Scores,
    response: JsonV,
)
    requires
        answers(before, after, request, now, stamp, scores, response),
        field(request, "method"@) == Some(JsonV::Text("provider.shutdown"@)),
    ensures
        after == before,
        ({
            let result = field_else(response, "result"@, JsonV::Null);
            &&& results_in(response, field_else(request, "id"@, JsonV::Null), result)
            &&& field(result, "shutdown"@) == Some(JsonV::Bool(true))
        }),
{
    lemma_methods_differ();
    let value = JsonV::Object(Map::empty().insert("shutdown"@, JsonV::Bool(true)));
    law_response_tells_what_a_request_came_to(field_else(request, "id"@, JsonV::Null), value, 0, Seq::empty());
}

/// The requests that only read what a provider is leave it as it is: its status tells
/// whether it has a path, a check tells whether the action that it is given is one on
/// memory that names a resource, a plan gives the ID of the action back, and what is
/// applied is named after the company of the provider and the resource of the action.
pub proof fn law_requests_about_the_provider(
    provider: OmnicedeProvider,
    after: Option<OmnicedeProvider>,
    request: JsonV,
    now: i64,
    stamp: Seq<char>,
    scores: Scores,
    response: JsonV,
    method: Seq<char>,
)
    requires
        answers(Some(provider), after, request, now, stamp, scores, response),
        field(request, "method"@) == Some(JsonV::Text(method)),
        method == "provider.status"@ || method == "provider.validate"@ || method == "provider.plan"@ || method
            == "provider.apply"@,
    ensures
        after == Some(provider),
        ({
            let id = field_else(request, "id"@, JsonV::Null);
            let params = field_else(request, "params"@, JsonV::Null);
            let action = field_else(params, "action"@, JsonV::Null);
            let resource = field_else(action, "resourceId"@, JsonV::Null);
            let valid = field(action, "family"@) == Some(JsonV::Text("memory"@)) && resource is Text;
            let result = field_else(response, "result"@, JsonV::Null);
            &&& method == "provider.status"@ ==> results_in(response, id, result) && field(result, "configured"@)
                == Some(JsonV::Bool(provider.path().len() > 0)) && field(result, "healthy"@) == Some(JsonV::Bool(true))
            &&& method == "provider.validate"@ ==> results_in(response, id, result) && field(result, "valid"@) == Some(
                JsonV::Bool(valid),
            )
            &&& method == "provider.plan"@ ==> results_in(response, id, result) && field(result, "actionId"@) == Some(
                field_else(action, "id"@, JsonV::Null),
            )
            &&& method == "provider.apply"@ && valid ==> results_in(response, id, result) && field(
                result,
                "providerResourceId"@,
            ) == Some(JsonV::Text("omnicede/memory/"@ + provider.company() + "/"@ + resource->Text_0))
            &&& method == "provider.apply"@ && !valid ==> fails_with(
                response,
                id,
                -32000,
                "invalid Omnicede memory action"@,
            )
        }),
{
    lemma_methods_differ();
    let id = field_else(request, "id"@, JsonV::Null);
    let params = field_else(request, "params"@, JsonV::Object(Map::empty()));
    let action = field_else(params, "action"@, JsonV::Null);
    law_status_tells_whether_it_is_configured(provider.path().len() > 0);
    law_action_on_memory_is_valid(provider.company(), action);
    let came_to = choose|came_to: core::result::Result<JsonV, Seq<char>>| #[trigger]
        serves(Some(provider), after, method, params, now, stamp, scores, came_to) && response == reply_json(
            id,
            came_to,
        );
    law_response_tells_what_a_request_came_to(id, came_to->Ok_0, -32000 as i64, came_to->Err_0);
}

/// A request to observe tells how many nodes the store of the provider holds, for its
/// company, and changes nothing in it.
pub proof fn law_observation_tells_the_size_of_the_store(
    provider: OmnicedeProvider,
    after: Option<OmnicedeProvider>,
    request: JsonV,
    now: i64,
    stamp: Seq<char>,
    scores: Scores,
    response: JsonV,
    store: StoreV,
    store2: StoreV,
)
    requires
        answers(Some(provider), after, request, now, stamp, scores, response),
        field(request, "method"@) == Some(JsonV::Text("provider.observe"@)),
        after is Some,
        history(after->0.connection()).last().reply->Rows_0 is Ok,
        does(store, history(after->0.connection()).last(), store2),
    ensures
        store2 == store,
        history(after->0.connection()).drop_last() == history(provider.connection()),
        ({
            let id = field_else(request, "id"@, JsonV::Null);
            let params = field_else(request, "params"@, JsonV::Null);
            let resource = field_else(params, "resource"@, JsonV::Null);
            let result = field_else(response, "result"@, JsonV::Null);
            let evidence = field_else(result, "evidence"@, JsonV::Null);
            &&& results_in(response, id, result)
            &&& field(result, "status"@) == Some(JsonV::Text("healthy"@))
            &&& field(result, "checkedAt"@) == Some(JsonV::Text(stamp))
            &&& field(result, "providerResourceId"@) == Some(field_else(resource, "providerResourceId"@, JsonV::Null))
            &&& evidence is Array
            &&& evidence->Array_0.len() == 1
            &&& field(evidence->Array_0[0], "nodeCount"@) == Some(JsonV::Integer(store.nodes.len() as int))
            &&& field(evidence->Array_0[0], "companyId"@) == Some(JsonV::Text(provider.company()))
        }),
{
    lemma_methods_differ();
    let id = field_else(request, "id"@, JsonV::Null);
    let params = field_else(request, "params"@, JsonV::Object(Map::empty()));
    let resource = field_else(params, "resource"@, JsonV::Null);
    let came_to = choose|came_to: core::result::Result<JsonV, Seq<char>>| #[trigger]
        serves(Some(provider), after, "provider.observe"@, params, now, stamp, scores, came_to) && response
            == reply_json(id, came_to);
    let e = history(after->0.connection()).last();
    let r = choose|r: Read<JsonV>| #[trigger]
        observes(
            history(provider.connection()),
            history(after->0.connection()),
            provider.company(),
            resource,
            stamp,
            r,
        );
    let n = choose|n: i64| #[trigger] counts_to(e.reply, n) && n == store.nodes.len();
    assert(count_of(e.reply) == Read::<i64>::Ok(n));
    law_observation_counts_the_nodes(provider.company(), resource, stamp, n);
    law_response_tells_what_a_request_came_to(id, came_to->Ok_0, -32000 as i64, came_to->Err_0);
}

/// A request to observe that the database cannot answer fails, and tells why.
pub proof fn law_failed_observation_tells_why(
    provider: OmnicedeProvider,
    after: Option<OmnicedeProvider>,
    request: JsonV,
    now: i64,
    stamp: Seq<char>,
    scores: Scores,
    response: JsonV,
    f: FaultV,
)
    requires
        answers(Some(provider), after, request, now, stamp, scores, response),
        field(request, "method"@) == Some(JsonV::Text("provider.observe"@)),
        after is Some,
        count_of(history(after->0.connection()).last().reply) == Read::<i64>::Err(f),
    ensures
        fails_with(response, field_else(request, "id"@, JsonV::Null), -32000, fault_text(f)),
{
    lemma_methods_differ();
    let id = field_else(request, "id"@, JsonV::Null);
    let params = field_else(request, "params"@, JsonV::Object(Map::empty()));
    let came_to = choose|came_to: core::result::Result<JsonV, Seq<char>>| #[trigger]
        serves(Some(provider), after, "provider.observe"@, params, now, stamp, scores, came_to) && response
            == reply_json(id, came_to);
    law_response_tells_what_a_request_came_to(id, came_to->Ok_0, -32000 as i64, came_to->Err_0);
}

/// A request to invoke performs the operation that it names, on the input that it names,
/// for the company of the provider, on the connection of the provider, and the response
/// tells what came of it.
pub proof fn law_invocation_performs_the_operation(
    provider: OmnicedeProvider,
    after: Option<OmnicedeProvider>,
    request: JsonV,
    now: i64,
    stamp: Seq<char>,
    scores: Scores,
    response: JsonV,
) -> (r: Read<JsonV>)
    requires
        answers(Some(provider), after, request, now, stamp, scores, response),
        field(request, "method"@) == Some(JsonV::Text("provider.invoke"@)),
    ensures
        after is Some,
        after->0.company() == provider.company(),
        after->0.path() == provider.path(),
        continues(history(provider.connection()), history(after->0.connection())),
        ({
            let params = field_else(request, "params"@, JsonV::Null);
            invokes(
                since(history(provider.connection()), history(after->0.connection())),
                provider.company(),
                match field(params, "operation"@) {
                    Some(JsonV::Text(operation)) => operation,
                    _ => Seq::empty(),
                },
                field_else(params, "input"@, JsonV::Null),
                now,
                stamp,
                provider.scores(),
                r,
            )
        }),
        match r {
            Ok(value) => results_in(response, field_else(request, "id"@, JsonV::Null), value),
            Err(f) => fails_with(response, field_else(request, "id"@, JsonV::Null), -32000, fault_text(f)),
        },
{
    lemma_methods_differ();
    reveal_strlit("");
    assert(""@ =~= Seq::<char>::empty());
    let id = field_else(request, "id"@, JsonV::Null);
    let params = field_else(request, "params"@, JsonV::Object(Map::empty()));
    let came_to = choose|came_to: core::result::Result<JsonV, Seq<char>>| #[trigger]
        serves(Some(provider), after, "provider.invoke"@, params, now, stamp, scores, came_to) && response
            == reply_json(id, came_to);
    let operation = match field(params, "operation"@) {
        Some(JsonV::Text(operation)) => operation,
        _ => Seq::empty(),
    };
    let r = choose|r: Read<JsonV>| #[trigger]
        invokes(
            since(history(provider.connection()), history(after->0.connection())),
            provider.company(),
            operation,
            field_else(params, "input"@, JsonV::Null),
            now,
            stamp,
            provider.scores(),
            r,
        ) && came_to == match r {
            Ok(value) => core::result::Result::<JsonV, Seq<char>>::Ok(value),
            Err(f) => Err(fault_text(f)),
        };
    law_response_tells_what_a_request_came_to(id, came_to->Ok_0, -32000 as i64, came_to->Err_0);
    r
}

/// A request to initialize that succeeds puts a provider for the company and the path
/// that it names in the place of any other, and tells what that offers. One that does
/// not name them, or does not speak the protocol, fails and changes nothing.
pub proof fn law_initialization_serves_the_company(
    before: Option<OmnicedeProvider>,
    after: Option<OmnicedeProvider>,
    request: JsonV,
    now: i64,
    stamp: Seq<char>,
    scores: Scores,
    response: JsonV,
)
    requires
        answers(before, after, request, now, stamp, scores, response),
        field(request, "method"@) == Some(JsonV::Text("provider.initialize"@)),
    ensures
        ({
            let id = field_else(request, "id"@, JsonV::Null);
            let params = field_else(request, "params"@, JsonV::Null);
            let company = field_else(field_else(params, "context"@, JsonV::Null), "companyId"@, JsonV::Null);
            let path = field_else(field_else(params, "configuration"@, JsonV::Null), "databasePath"@, JsonV::Null);
            let spoken = field_else(params, "protocolVersion"@, JsonV::Null);
            let result = field_else(response, "result"@, JsonV::Null);
            let usable = spoken == JsonV::Text("omniseed.provider.protocol/1.0"@) && company is Text
                && company->Text_0.len() > 0 && path is Text && path->Text_0.len() > 0;
            if field(response, "result"@) is Some {
                &&& usable
                &&& results_in(response, id, result)
                &&& result == initialization_json()
                &&& after is Some
                &&& after->0.company() == company->Text_0
                &&& after->0.path() == path->Text_0
                &&& after->0.scores() == scores
            } else {
                &&& after == before
                &&& fails_with(
                    response,
                    id,
                    -32000,
                    field_else(field_else(response, "error"@, JsonV::Null), "message"@, JsonV::Null)->Text_0,
                )
                &&& !usable ==> fails_with(
                    response,
                    id,
                    -32000,
                    if spoken != JsonV::Text("omniseed.provider.protocol/1.0"@) {
                        "unsupported Provider protocol: "@ + (match spoken {
                            JsonV::Text(protocol) => protocol,
                            _ => Seq::empty(),
                        })
                    } else if !(company is Text) || company->Text_0.len() == 0 {
                        "Provider context requires companyId"@
                    } else {
                        "Provider configuration requires databasePath"@
                    },
                )
            }
        }),
{
    let id = field_else(request, "id"@, JsonV::Null);
    let params = field_else(request, "params"@, JsonV::Object(Map::empty()));
    law_settings_are_the_company_and_the_path(params);
    let came_to = choose|came_to: core::result::Result<JsonV, Seq<char>>| #[trigger]
        serves(before, after, "provider.initialize"@, params, now, stamp, scores, came_to) && response == reply_json(
            id,
            came_to,
        );
    law_response_tells_what_a_request_came_to(id, came_to->Ok_0, -32000 as i64, came_to->Err_0);
    if came_to is Ok {
        law_initialized_provider_is_ready(before, after, params, scores, came_to->Ok_0);
    }
}

/// A line that is no JSON is answered by an error without an ID and changes nothing. Any
/// other line is answered by the JSON of the response to its request. The server stops
/// after a line that asks to shut down, and after no other.
pub proof fn law_line_is_answered_as_its_request(
    before: Option<OmnicedeProvider>,
    after: Option<OmnicedeProvider>,
    line: Seq<char>,
    now: i64,
    stamp: Seq<char>,
    scores: Scores,
    reply: Reply,
) -> (response: JsonV)
    requires
        answers_line(before, after, line, now, stamp, scores, reply),
    ensures
        reply.line@ == rendered(response),
        match parsed(line) {
            None => {
                &&& after == before
                &&& !reply.stop
                &&& fails_with(response, JsonV::Null, -32700, "Parse error"@)
            },
            Some(request) => {
                &&& answers(before, after, request, now, stamp, scores, response)
                &&& reply.stop <==> field(request, "method"@) == Some(JsonV::Text("provider.shutdown"@))
            },
        },
{
    reveal_strlit("");
    reveal_strlit("provider.shutdown");
    assert(""@.len() == 0 && "provider.shutdown"@.len() > 0);
    law_response_tells_what_a_request_came_to(JsonV::Null, JsonV::Null, -32700 as i64, "Parse error"@);
    match parsed(line) {
        None => response_json(JsonV::Null, None, Some(error_json(-32700 as i64, "Parse error"@))),
        Some(request) => choose|response: JsonV| #[trigger]
            answers(before, after, request, now, stamp, scores, response) && reply.line@ == rendered(response),
    }
}

}
