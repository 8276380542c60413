//! The Provider as a server: one JSON-RPC request on each line, one response
//! line for each.

use rusqlite::Connection;
use vstd::prelude::*;

use crate::db::rows::Read;
use crate::db::{continues, history, law_opened_is_ready, opens, ready, since};
use crate::error::{fault_text, outcome, Result};
use crate::json::{empty_object, field, or_null, parse, parsed, render, rendered, text_of, Json, JsonV};
use crate::omniseed_provider::{
    application, copied_field_or, field_or, initialization_json, invokes, is_stamp, observes, plan_json, provides,
    settings, status_json, utc_stamp, validation_json, OmnicedeProvider,
};
use crate::text::same;
use crate::types::Scores;

verus! {

/// The code for a line that is no JSON.
pub const PARSE_ERROR: i64 = -32700;

/// The code for a method that is not known.
pub const METHOD_NOT_FOUND: i64 = -32601;

/// The code for a request that failed.
pub const REQUEST_FAILED: i64 = -32000;

/// The message for a request that comes too early.
pub const NOT_INITIALIZED: &'static str = "Provider is not initialized";

/// An error as a response holds it.
pub open spec fn error_json(code: i64, message: Seq<char>) -> JsonV {
    empty_object().with("code"@, JsonV::Integer(code as int)).with("message"@, JsonV::Text(message))
}

/// A response: an error, or a result.
pub open spec fn response_json(id: JsonV, result: Option<JsonV>, error: Option<JsonV>) -> JsonV {
    let head = empty_object().with("jsonrpc"@, JsonV::Text("2.0"@)).with("id"@, id);
    match error {
        Some(error) => head.with("error"@, error),
        None => head.with("result"@, or_null(result)),
    }
}

/// The response with what a request came to: its result, or the message of why
/// it failed.
pub open spec fn reply_json(id: JsonV, came_to: core::result::Result<JsonV, Seq<char>>) -> JsonV {
    match came_to {
        Ok(value) => response_json(id, Some(value), None),
        Err(message) => response_json(id, None, Some(error_json(REQUEST_FAILED, message))),
    }
}

/// What a request came to, with a fault taken by its message.
pub open spec fn told(r: Read<JsonV>) -> core::result::Result<JsonV, Seq<char>> {
    match r {
        Ok(value) => Ok(value),
        Err(f) => Err(fault_text(f)),
    }
}

/// The method that a request names.
pub open spec fn method_of(request: JsonV) -> Seq<char> {
    match text_of(field(request, "method"@)) {
        Some(method) => method,
        None => ""@,
    }
}

/// The provider keeps all but the state of its database.
pub open spec fn same_provider(before: OmnicedeProvider, after: Option<OmnicedeProvider>) -> bool {
    after matches Some(provider) && {
        &&& provider.company() == before.company()
        &&& provider.path() == before.path()
        &&& provider.scores() == before.scores()
    }
}

/// How a request to initialize is served: where it names what it has to and the
/// database can be opened, a fresh provider takes the place of any other.
pub open spec fn initializes(
    before: Option<OmnicedeProvider>,
    after: Option<OmnicedeProvider>,
    params: JsonV,
    scores: Scores,
    came_to: core::result::Result<JsonV, Seq<char>>,
) -> bool {
    match settings(params) {
        Err(f) => after == before && came_to == core::result::Result::<JsonV, Seq<char>>::Err(fault_text(f)),
        Ok((company, path)) => exists|opened: Result<Connection>, made: Result<OmnicedeProvider>|
            opens(Some(path), opened) && #[trigger] provides(company, path, scores, opened, made) && adopts(
                before,
                after,
                made,
                came_to,
            ),
    }
}

/// What comes of a provider that was started, or not: it takes the place of any
/// other and says what it is, or the error is told and what was there stays.
pub open spec fn adopts(
    before: Option<OmnicedeProvider>,
    after: Option<OmnicedeProvider>,
    made: Result<OmnicedeProvider>,
    came_to: core::result::Result<JsonV, Seq<char>>,
) -> bool {
    match made {
        Ok(provider) => after == Some(provider) && came_to == core::result::Result::<JsonV, Seq<char>>::Ok(
            initialization_json(),
        ),
        Err(e) => after == before && came_to == core::result::Result::<JsonV, Seq<char>>::Err(
            fault_text(e.deep_view()),
        ),
    }
}

/// Takes on a provider that was started, or tells why it was not.
pub fn adopt(provider: &mut Option<OmnicedeProvider>, made: Result<OmnicedeProvider>) -> (t: core::result::Result<
    Json,
    String,
>)
    ensures
        adopts(*old(provider), *final(provider), made, said(t)),
{
    match made {
        Ok(fresh) => {
            let response = fresh.initialization();
            *provider = Some(fresh);
            Ok(response)
        },
        Err(e) => Err(e.message()),
    }
}

/// What a request to a provider that is there, or not, came to. Requests that
/// only read what the provider is leave it as it is; those to its database go by
/// the history of its connection.
pub open spec fn serves(
    before: Option<OmnicedeProvider>,
    after: Option<OmnicedeProvider>,
    method: Seq<char>,
    params: JsonV,
    now: i64,
    stamp: Seq<char>,
    scores: Scores,
    came_to: core::result::Result<JsonV, Seq<char>>,
) -> bool {
    let action = or_null(field(params, "action"@));
    if method == "provider.initialize"@ {
        initializes(before, after, params, scores, came_to)
    } else if method == "provider.shutdown"@ {
        after == before && came_to == core::result::Result::<JsonV, Seq<char>>::Ok(
            empty_object().with("shutdown"@, JsonV::Bool(true)),
        )
    } else {
        match before {
            None => after == before && came_to == core::result::Result::<JsonV, Seq<char>>::Err(NOT_INITIALIZED@),
            Some(provider) => if method == "provider.status"@ {
                after == before && came_to == told(Ok(status_json(provider.path().len() != 0)))
            } else if method == "provider.validate"@ {
                after == before && came_to == told(Ok(validation_json(action)))
            } else if method == "provider.plan"@ {
                after == before && came_to == told(Ok(plan_json(action)))
            } else if method == "provider.apply"@ {
                after == before && came_to == told(application(provider.company(), action))
            } else if method == "provider.observe"@ {
                &&& same_provider(provider, after)
                &&& exists|r: Read<JsonV>|
                    #[trigger] observes(
                        history(provider.connection()),
                        history(after->0.connection()),
                        provider.company(),
                        or_null(field(params, "resource"@)),
                        stamp,
                        r,
                    ) && came_to == told(r)
            } else {
                &&& same_provider(provider, after)
                &&& invoked(provider, after->0, params, now, stamp, came_to)
            },
        }
    }
}

/// What a request to invoke an operation came to.
pub open spec fn invoked(
    before: OmnicedeProvider,
    after: OmnicedeProvider,
    params: JsonV,
    now: i64,
    stamp: Seq<char>,
    came_to: core::result::Result<JsonV, Seq<char>>,
) -> bool {
    &&& continues(history(before.connection()), history(after.connection()))
    &&& exists|r: Read<JsonV>|
        #[trigger] invokes(
            since(history(before.connection()), history(after.connection())),
            before.company(),
            operation_of(params),
            or_null(field(params, "input"@)),
            now,
            stamp,
            before.scores(),
            r,
        ) && came_to == told(r)
}

/// The operation that a request to invoke names.
pub open spec fn operation_of(params: JsonV) -> Seq<char> {
    match text_of(field(params, "operation"@)) {
        Some(operation) => operation,
        None => ""@,
    }
}

/// A method of the protocol.
pub open spec fn known_method(method: Seq<char>) -> bool {
    ||| method == "provider.initialize"@
    ||| method == "provider.status"@
    ||| method == "provider.validate"@
    ||| method == "provider.plan"@
    ||| method == "provider.apply"@
    ||| method == "provider.observe"@
    ||| method == "provider.invoke"@
    ||| method == "provider.shutdown"@
}

/// How a request is answered.
pub open spec fn answers(
    before: Option<OmnicedeProvider>,
    after: Option<OmnicedeProvider>,
    request: JsonV,
    now: i64,
    stamp: Seq<char>,
    scores: Scores,
    response: JsonV,
) -> bool {
    let id = or_null(field(request, "id"@));
    let params = field_or(request, "params"@, empty_object());
    if known_method(method_of(request)) {
        exists|came_to: core::result::Result<JsonV, Seq<char>>|
            #[trigger] serves(before, after, method_of(request), params, now, stamp, scores, came_to)
                && response == reply_json(id, came_to)
    } else {
        &&& after == before
        &&& response == response_json(id, None, Some(error_json(METHOD_NOT_FOUND, "Method not found"@)))
    }
}

/// The provider, if there is one.
pub fn current(provider: &Option<OmnicedeProvider>) -> (r: core::result::Result<&OmnicedeProvider, String>)
    ensures
        match (r, *provider) {
            (Ok(found), Some(there)) => *found == there,
            (Err(message), None) => message@ == NOT_INITIALIZED@,
            _ => false,
        },
{
    match provider {
        Some(found) => Ok(found),
        None => Err(NOT_INITIALIZED.to_owned()),
    }
}

/// An error as a response holds it.
fn error_value(code: i64, message: &str) -> (r: Json)
    ensures
        r.deep_view() == error_json(code, message@),
{
    Json::object().with("code", Json::Signed(code)).with("message", Json::text(message))
}

/// A response: an error, or a result.
pub fn respond(id: Json, result: Option<Json>, error: Option<Json>) -> (r: Json)
    ensures
        r.deep_view() == response_json(id.deep_view(), result.deep_view(), error.deep_view()),
{
    let head = Json::object().with("jsonrpc", Json::text("2.0")).with("id", id);
    match error {
        Some(error) => head.with("error", error),
        None => head.with(
            "result",
            match result {
                Some(result) => result,
                None => Json::Null,
            },
        ),
    }
}

/// What a request came to, with an error taken by its message.
fn tell(r: Result<Json>) -> (t: core::result::Result<Json, String>)
    ensures
        said(t) == told(outcome(r)),
{
    match r {
        Ok(value) => Ok(value),
        Err(e) => Err(e.message()),
    }
}

/// What a request came to, by what it says.
pub open spec fn said(t: core::result::Result<Json, String>) -> core::result::Result<JsonV, Seq<char>> {
    match t {
        Ok(value) => Ok(value.deep_view()),
        Err(message) => Err(message@),
    }
}

/// Serves a request to initialize.
fn initialize(provider: &mut Option<OmnicedeProvider>, params: &Json, scores: Scores) -> (t: core::result::Result<
    Json,
    String,
>)
    ensures
        initializes(*old(provider), *final(provider), params.deep_view(), scores, said(t)),
{
    let made = OmnicedeProvider::initialize(params, scores);
    proof {
        if let Ok((company, path)) = settings(params.deep_view()) {
            let opened = choose|opened: Result<Connection>| #[trigger]
                opens(Some(path), opened) && provides(company, path, scores, opened, made);
            assert(provides(company, path, scores, opened, made));
        }
    }
    adopt(provider, made)
}

/// Serves a request to invoke an operation.
fn invoke(provider: &mut OmnicedeProvider, params: &Json, now: i64, stamp: &str) -> (t: core::result::Result<
    Json,
    String,
>)
    ensures
        same_provider(*old(provider), Some(*final(provider))),
        invoked(*old(provider), *final(provider), params.deep_view(), now, stamp@, said(t)),
{
    let operation = match params.get_text("operation") {
        Some(operation) => operation,
        None => "",
    };
    let input = params.field_or_null("input");
    let r = provider.invoke_at(operation, &input, now, stamp);
    let ghost what = outcome(r);
    assert(invokes(
        since(history(old(provider).connection()), history(provider.connection())),
        old(provider).company(),
        operation_of(params.deep_view()),
        or_null(field(params.deep_view(), "input"@)),
        now,
        stamp@,
        old(provider).scores(),
        what,
    ));
    tell(r)
}

/// Serves a request with a known method.
fn serve(
    provider: &mut Option<OmnicedeProvider>,
    method: &str,
    params: &Json,
    now: i64,
    stamp: &str,
    scores: Scores,
) -> (t: core::result::Result<Json, String>)
    requires
        known_method(method@),
    ensures
        serves(*old(provider), *final(provider), method@, params.deep_view(), now, stamp@, scores, said(t)),
{
    if same(method, "provider.initialize") {
        return initialize(provider, params, scores);
    }
    if same(method, "provider.shutdown") {
        return Ok(Json::object().with("shutdown", Json::Bool(true)));
    }
    if let Err(message) = current(provider) {
        return Err(message);
    }
    let action = params.field_or_null("action");
    match provider {
        Some(found) => if same(method, "provider.status") {
            Ok(found.status())
        } else if same(method, "provider.validate") {
            Ok(found.validate(&action))
        } else if same(method, "provider.plan") {
            Ok(found.plan(&action))
        } else if same(method, "provider.apply") {
            tell(found.apply(&action))
        } else if same(method, "provider.observe") {
            tell(found.observe_at(&params.field_or_null("resource"), stamp))
        } else {
            invoke(found, params, now, stamp)
        },
        None => Err(NOT_INITIALIZED.to_owned()),
    }
}

/// Is a method one of the protocol?
fn is_known(method: &str) -> (r: bool)
    ensures
        r == known_method(method@),
{
    same(method, "provider.initialize") || same(method, "provider.status") || same(method, "provider.validate") || same(
        method,
        "provider.plan",
    ) || same(method, "provider.apply") || same(method, "provider.observe") || same(method, "provider.invoke") || same(
        method,
        "provider.shutdown",
    )
}

/// Answers a request, at `now` in seconds since 1970 and at the time `stamp`.
/// `scores` are those that new facts start with.
pub fn handle_request(
    provider: &mut Option<OmnicedeProvider>,
    request: &Json,
    now: i64,
    stamp: &str,
    scores: Scores,
) -> (response: Json)
    ensures
        answers(
            *old(provider),
            *final(provider),
            request.deep_view(),
            now,
            stamp@,
            scores,
            response.deep_view(),
        ),
{
    let id = request.field_or_null("id");
    let method = match request.get_text("method") {
        Some(method) => method,
        None => "",
    };
    if !is_known(method) {
        return respond(id, None, Some(error_value(METHOD_NOT_FOUND, "Method not found")));
    }
    let params = copied_field_or(request, "params", Json::object());
    let came_to = serve(provider, method, &params, now, stamp, scores);
    let ghost what = said(came_to);
    assert(serves(
        *old(provider),
        *provider,
        method_of(request.deep_view()),
        params.deep_view(),
        now,
        stamp@,
        scores,
        what,
    ));
    match came_to {
        Ok(value) => respond(id, Some(value), None),
        Err(message) => respond(id, None, Some(error_value(REQUEST_FAILED, message.as_str()))),
    }
}

/// A line to send, and whether it is the last.
pub struct Reply {
    pub line: String,
    pub stop: bool,
}

/// How a line is answered: one that is no JSON by an error, any other as the
/// request in it. The server stops after a request to shut down.
pub open spec fn answers_line(
    before: Option<OmnicedeProvider>,
    after: Option<OmnicedeProvider>,
    line: Seq<char>,
    now: i64,
    stamp: Seq<char>,
    scores: Scores,
    reply: Reply,
) -> bool {
    match parsed(line) {
        None => {
            &&& after == before
            &&& !reply.stop
            &&& reply.line@ == rendered(
                response_json(JsonV::Null, None, Some(error_json(PARSE_ERROR, "Parse error"@))),
            )
        },
        Some(request) => {
            &&& reply.stop == (method_of(request) == "provider.shutdown"@)
            &&& exists|response: JsonV|
                #[trigger] answers(before, after, request, now, stamp, scores, response) && reply.line@ == rendered(
                    response,
                )
        },
    }
}

/// Answers a line, at `now` in seconds since 1970. `scores` are those that new
/// facts start with.
pub fn handle_line(provider: &mut Option<OmnicedeProvider>, line: &str, now: i64, scores: Scores) -> (reply: Reply)
    ensures
        exists|stamp: Seq<char>|
            is_stamp(stamp) && #[trigger] answers_line(*old(provider), *final(provider), line@, now, stamp, scores, reply),
{
    let stamp = utc_stamp();
    let reply = match parse(line) {
        None => {
            let response = respond(Json::Null, None, Some(error_value(PARSE_ERROR, "Parse error")));
            Reply { line: render(&response), stop: false }
        },
        Some(request) => {
            let stop = match request.get_text("method") {
                Some(method) => same(method, "provider.shutdown"),
                None => false,
            };
            let response = handle_request(provider, &request, now, stamp.as_str(), scores);
            proof {
                reveal_strlit("");
                reveal_strlit("provider.shutdown");
                assert(""@.len() != "provider.shutdown"@.len());
            }
            Reply { line: render(&response), stop }
        },
    };
    assert(answers_line(*old(provider), *provider, line@, now, stamp@, scores, reply));
    reply
}

/// Before a provider is initialized every request but the one to initialize and
/// the one to shut down is refused, and leaves no provider.
pub proof fn law_nothing_before_initialize(
    after: Option<OmnicedeProvider>,
    request: JsonV,
    now: i64,
    stamp: Seq<char>,
    scores: Scores,
    response: JsonV,
)
    requires
        answers(None, after, request, now, stamp, scores, response),
        known_method(method_of(request)),
        method_of(request) != "provider.initialize"@,
        method_of(request) != "provider.shutdown"@,
    ensures
        after is None,
        response == reply_json(or_null(field(request, "id"@)), Err(NOT_INITIALIZED@)),
{
}

/// A response carries the ID of its request, and either a result or an error.
pub proof fn law_response_carries_the_id(
    before: Option<OmnicedeProvider>,
    after: Option<OmnicedeProvider>,
    request: JsonV,
    now: i64,
    stamp: Seq<char>,
    scores: Scores,
    response: JsonV,
)
    requires
        answers(before, after, request, now, stamp, scores, response),
    ensures
        field(response, "id"@) == Some(or_null(field(request, "id"@))),
        field(response, "jsonrpc"@) == Some(JsonV::Text("2.0"@)),
        field(response, "result"@) is Some <==> field(response, "error"@) is None,
{
    lemma_keys_differ();
}

/// The keys of a response differ.
proof fn lemma_keys_differ()
    ensures
        "id"@ != "jsonrpc"@,
        "id"@ != "result"@,
        "id"@ != "error"@,
        "jsonrpc"@ != "result"@,
        "jsonrpc"@ != "error"@,
        "result"@ != "error"@,
{
    reveal_strlit("id");
    reveal_strlit("jsonrpc");
    reveal_strlit("result");
    reveal_strlit("error");
    assert("id"@.len() == 2);
    assert("jsonrpc"@.len() == 7);
    assert("result"@.len() == 6);
    assert("error"@.len() == 5);
}

/// A provider stays with the company and the database file that it was initialized
/// with, whatever it is asked, until it is initialized again: the history of its
/// connection, which starts with the opening of the file, goes on.
pub proof fn law_company_is_kept(
    before: OmnicedeProvider,
    after: Option<OmnicedeProvider>,
    request: JsonV,
    now: i64,
    stamp: Seq<char>,
    scores: Scores,
    response: JsonV,
)
    requires
        answers(Some(before), after, request, now, stamp, scores, response),
        method_of(request) != "provider.initialize"@,
    ensures
        same_provider(before, after),
        continues(history(before.connection()), history(after->0.connection())),
{
    let one = history(before.connection());
    assert(one =~= one.subrange(0, one.len() as int));
    let two = history(after->0.connection());
    if two.len() == one.len() + 1 {
        assert(two.drop_last() =~= two.subrange(0, two.len() - 1));
    }
}

/// A request to initialize that is refused leaves what was there.
pub proof fn law_refused_initialization_changes_nothing(
    before: Option<OmnicedeProvider>,
    after: Option<OmnicedeProvider>,
    params: JsonV,
    scores: Scores,
    message: Seq<char>,
)
    requires
        initializes(before, after, params, scores, Err(message)),
    ensures
        after == before,
{
}

/// A provider that was initialized serves the company and the database that were
/// asked for, on a connection that has the tables of the graph and was asked
/// nothing else.
pub proof fn law_initialized_provider_is_ready(
    before: Option<OmnicedeProvider>,
    after: Option<OmnicedeProvider>,
    params: JsonV,
    scores: Scores,
    value: JsonV,
)
    requires
        initializes(before, after, params, scores, Ok(value)),
    ensures
        value == initialization_json(),
        settings(params) matches Ok((company, path)) && after matches Some(provider) && {
            &&& provider.company() == company
            &&& provider.path() == path
            &&& provider.scores() == scores
            &&& ready(provider.connection(), Some(path))
        },
{
    let (company, path) = settings(params)->Ok_0;
    let (opened, made) = choose|opened: Result<Connection>, made: Result<OmnicedeProvider>|
        opens(Some(path), opened) && #[trigger] provides(company, path, scores, opened, made) && adopts(
            before,
            after,
            made,
            Ok(value),
        );
    law_opened_is_ready(Some(path), opened);
}

}
