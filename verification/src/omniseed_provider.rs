//! The memory Provider: durable graph memory behind the OmniSeed Provider
//! Protocol.
//!
//! A Provider serves one company. It offers the primitive family `memory` and
//! keeps what it is given in an SQLite file.

use rusqlite::Connection;
use vstd::prelude::*;
use vstd::string::*;

use crate::db::params::node_cells;
use crate::db::queries::{
    any_changed, delete_node, delete_statements, get_node, node_count, node_of, nodes_of, plainly, search_nodes_text,
    search_pattern, upsert_node, GET_NODE, NODE_COUNT, SEARCH_NODES, UPSERT_NODE,
};
use crate::db::rows::{count_of, law_node_reads_back, Read};
use crate::db::{
    completed, continues, history, lemma_since_step, open, opens, queried, ran, ready, since, statement, Exchange, ReplyV,
    RowV, SqlV,
};
use crate::error::{done, outcome, CortexError, FaultV, Result};
use crate::json::{
    empty_object, field, items_view, lemma_items_view, or_null, parse, parsed, plain, render, rendered, text_items,
    text_of, Json, JsonV, MAX_DEPTH,
};
use crate::text::{is_empty, same, stands_at};
use crate::types::{new_node, Node, NodeKind, NodeSeed, NodeV, RealBits, Scores};

verus! {

/// The version of the protocol that the Provider speaks.
pub const PROTOCOL: &'static str = "omniseed.provider.protocol/1.0";

/// The methods of the protocol.
pub const METHODS: [&'static str; 8] = [
    "provider.initialize",
    "provider.status",
    "provider.validate",
    "provider.plan",
    "provider.apply",
    "provider.observe",
    "provider.invoke",
    "provider.shutdown",
];

/// The version of the Provider.
pub const VERSION: &'static str = "0.1.0";

/// A Provider of memory for one company.
pub struct OmnicedeProvider {
    conn: Connection,
    company_id: String,
    database_path: String,
    fact_scores: Scores,
}

/// The company and the database that a request to initialize names.
pub open spec fn settings(params: JsonV) -> Read<(Seq<char>, Seq<char>)> {
    let protocol = match text_of(field(params, "protocolVersion"@)) {
        Some(p) => p,
        None => ""@,
    };
    let company = text_of(field(or_null(field(params, "context"@)), "companyId"@));
    let path = text_of(field(or_null(field(params, "configuration"@)), "databasePath"@));
    if protocol != PROTOCOL@ {
        Err(FaultV::Config("unsupported Provider protocol: "@ + protocol))
    } else if company is None || company->0.len() == 0 {
        Err(FaultV::Config("Provider context requires companyId"@))
    } else if path is None || path->0.len() == 0 {
        Err(FaultV::Config("Provider configuration requires databasePath"@))
    } else {
        Ok((company->0, path->0))
    }
}

/// The text `key` of the object `part` of a value, unless it is empty.
fn named_text(value: &Json, part: &str, key: &str) -> (r: Option<String>)
    ensures
        r.deep_view() == match text_of(field(or_null(field(value.deep_view(), part@)), key@)) {
            Some(t) => if t.len() == 0 {
                None
            } else {
                Some(t)
            },
            None => None,
        },
{
    let found = match value.get(part) {
        Some(object) => object.get_text(key),
        None => None,
    };
    match found {
        Some(t) => if is_empty(t) {
            None
        } else {
            Some(t.to_owned())
        },
        None => None,
    }
}

/// Reads the company and the database from a request to initialize.
pub fn read_settings(params: &Json) -> (r: Result<(String, String)>)
    ensures
        outcome(r) == settings(params.deep_view()),
{
    let protocol = match params.get_text("protocolVersion") {
        Some(p) => p,
        None => "",
    };
    if !same(protocol, PROTOCOL) {
        let mut message = "unsupported Provider protocol: ".to_owned();
        message.append(protocol);
        return Err(CortexError::Config(message));
    }
    let company_id = match named_text(params, "context", "companyId") {
        Some(c) => c,
        None => {
            return Err(CortexError::config("Provider context requires companyId"));
        },
    };
    let database_path = match named_text(params, "configuration", "databasePath") {
        Some(p) => p,
        None => {
            return Err(CortexError::config("Provider configuration requires databasePath"));
        },
    };
    Ok((company_id, database_path))
}

/// What comes of a database that was opened, or not: a Provider on it for the
/// company, or the error.
pub open spec fn provides(
    company: Seq<char>,
    path: Seq<char>,
    scores: Scores,
    opened: Result<Connection>,
    r: Result<OmnicedeProvider>,
) -> bool {
    match opened {
        Ok(conn) => r matches Ok(provider) && {
            &&& provider.company() == company
            &&& provider.path() == path
            &&& provider.scores() == scores
            &&& provider.connection() == conn
        },
        Err(e) => r == Result::<OmnicedeProvider>::Err(e),
    }
}

/// What the Provider says of itself.
pub open spec fn initialization_json() -> JsonV {
    empty_object().with("protocolVersion"@, JsonV::Text(PROTOCOL@)).with(
        "provider"@,
        empty_object().with("id"@, JsonV::Text("omnicede"@)).with("name"@, JsonV::Text("Omnicede"@)).with(
            "organisation"@,
            JsonV::Text("Omnicede"@),
        ).with("version"@, JsonV::Text(VERSION@)),
    ).with("primitiveFamilies"@, JsonV::Array(seq![JsonV::Text("memory"@)])).with(
        "offerings"@,
        JsonV::Array(
            seq![
                offering_json("organisational_context"@),
                offering_json("engineering_history"@),
                offering_json("retained_company_knowledge"@),
            ],
        ),
    ).with(
        "operations"@,
        JsonV::Array(
            seq![
                JsonV::Text("index"@),
                JsonV::Text("update"@),
                JsonV::Text("remove"@),
                JsonV::Text("search"@),
                JsonV::Text("retrieve"@),
            ],
        ),
    ).with("methods"@, JsonV::Array(text_items(METHODS@)))
}

/// An offering of memory.
pub open spec fn offering_json(id: Seq<char>) -> JsonV {
    empty_object().with("family"@, JsonV::Text("memory"@)).with("id"@, JsonV::Text(id))
}

/// An offering of memory.
fn offering(id: &str) -> (r: Json)
    ensures
        r.deep_view() == offering_json(id@),
{
    Json::object().with("family", Json::text("memory")).with("id", Json::text(id))
}

impl OmnicedeProvider {
    /// The company that the Provider serves.
    pub closed spec fn company(&self) -> Seq<char> {
        self.company_id@
    }

    /// The path of the database.
    pub closed spec fn path(&self) -> Seq<char> {
        self.database_path@
    }

    /// The connection to the database.
    pub closed spec fn connection(&self) -> Connection {
        self.conn
    }

    /// The scores that a new fact starts with.
    pub closed spec fn scores(&self) -> Scores {
        self.fact_scores
    }

    /// Starts a Provider on a database that was opened, or not.
    pub fn on_database(
        company_id: String,
        database_path: String,
        opened: Result<Connection>,
        fact_scores: Scores,
    ) -> (r: Result<OmnicedeProvider>)
        ensures
            provides(company_id@, database_path@, fact_scores, opened, r),
    {
        match opened {
            Ok(conn) => Ok(OmnicedeProvider { conn, company_id, database_path, fact_scores }),
            Err(e) => Err(e),
        }
    }

    /// Starts a Provider as a request to initialize asks: where its settings are in
    /// order the database is opened, and the Provider starts where that succeeds.
    /// Whether it does depends on the disk.
    pub fn initialize(params: &Json, fact_scores: Scores) -> (r: Result<OmnicedeProvider>)
        ensures
            match settings(params.deep_view()) {
                Err(f) => r matches Err(e) && e.deep_view() == f,
                Ok((company, path)) => {
                    &&& exists|opened: Result<Connection>| #[trigger]
                        opens(Some(path), opened) && provides(company, path, fact_scores, opened, r)
                    &&& match r {
                        Ok(provider) => ready(provider.connection(), Some(path)),
                        Err(e) => e is Sqlite,
                    }
                },
            },
    {
        let (company_id, database_path) = read_settings(params)?;
        let ghost (company, path) = settings(params.deep_view())->Ok_0;
        assert(company == company_id@ && path == database_path@);
        let opened = open(database_path.as_str());
        let ghost had = opened;
        let r = OmnicedeProvider::on_database(company_id, database_path, opened, fact_scores);
        assert(opens(Some(path), had) && provides(company, path, fact_scores, had, r));
        r
    }

    /// What the Provider says of itself.
    pub fn initialization(&self) -> (r: Json)
        ensures
            r.deep_view() == initialization_json(),
    {
        let provider = Json::object().with("id", Json::text("omnicede")).with("name", Json::text("Omnicede")).with(
            "organisation",
            Json::text("Omnicede"),
        ).with("version", Json::text(VERSION));
        let offerings = vec![
            offering("organisational_context"),
            offering("engineering_history"),
            offering("retained_company_knowledge"),
        ];
        let operations = ["index", "update", "remove", "search", "retrieve"];
        proof {
            lemma_items_view(offerings@);
            assert(items_view(offerings@) =~= seq![
                offering_json("organisational_context"@),
                offering_json("engineering_history"@),
                offering_json("retained_company_knowledge"@),
            ]);
            assert(text_items(operations@) =~= seq![
                JsonV::Text("index"@),
                JsonV::Text("update"@),
                JsonV::Text("remove"@),
                JsonV::Text("search"@),
                JsonV::Text("retrieve"@),
            ]);
        }
        Json::object().with("protocolVersion", Json::text(PROTOCOL)).with("provider", provider).with(
            "primitiveFamilies",
            Json::one(Json::text("memory")),
        ).with("offerings", Json::Array(offerings)).with("operations", Json::texts(&operations)).with(
            "methods",
            Json::texts(&METHODS),
        )
    }

    /// The state of the Provider.
    pub fn status(&self) -> (r: Json)
        ensures
            r.deep_view() == status_json(self.path().len() != 0),
    {
        let configured = !is_empty(self.database_path.as_str());
        Json::object().with("implementation_available", Json::Bool(true)).with("configured", Json::Bool(configured)).with(
            "connected",
            Json::Bool(true),
        ).with("healthy", Json::Bool(true))
    }

    /// Checks an action.
    pub fn validate(&self, action: &Json) -> (r: Json)
        ensures
            r.deep_view() == validation_json(action.deep_view()),
    {
        let valid = is_valid(action);
        let issues = if valid {
            Json::empty_array()
        } else {
            Json::one(Json::object().with("message", Json::text("Omnicede requires a memory action with resourceId")))
        };
        Json::object().with("valid", Json::Bool(valid)).with("issues", issues)
    }

    /// Plans an action.
    pub fn plan(&self, action: &Json) -> (r: Json)
        ensures
            r.deep_view() == plan_json(action.deep_view()),
    {
        Json::object().with("deterministic", Json::Bool(true)).with("actionId", action.field_or_null("id"))
    }

    /// Applies an action.
    pub fn apply(&self, action: &Json) -> (r: Result<Json>)
        ensures
            outcome(r) == application(self.company(), action.deep_view()),
    {
        if !is_valid(action) {
            return Err(CortexError::config("invalid Omnicede memory action"));
        }
        let resource_id = match action.get_text("resourceId") {
            Some(resource_id) => resource_id,
            None => "",
        };
        let mut id = "omnicede/memory/".to_owned();
        id.append(self.company_id.as_str());
        id.append("/");
        id.append(resource_id);
        let attributes = Json::object().with("companyId", Json::Text(self.company_id.clone())).with(
            "durable",
            Json::Bool(true),
        ).with("storage", Json::text("sqlite"));
        Ok(
            Json::object().with("providerResourceId", Json::Text(id)).with("status", Json::text("deployed")).with(
                "attributes",
                attributes,
            ),
        )
    }

    /// Observes a resource at the time `stamp`.
    pub fn observe_at(&mut self, resource: &Json, stamp: &str) -> (r: Result<Json>)
        ensures
            final(self).company() == old(self).company(),
            final(self).path() == old(self).path(),
            final(self).scores() == old(self).scores(),
            observes(
                history(old(self).connection()),
                history(final(self).connection()),
                old(self).company(),
                resource.deep_view(),
                stamp@,
                outcome(r),
            ),
    {
        let count: i64 = node_count(&mut self.conn)?;
        let evidence = Json::object().with("type", Json::text("omnicede_memory_observation")).with(
            "source",
            Json::text("omnicede"),
        ).with("value", Json::text("healthy")).with("companyId", Json::Text(self.company_id.clone())).with(
            "nodeCount",
            Json::Signed(count),
        ).with("providerVersion", Json::text(VERSION));
        Ok(
            Json::object().with("status", Json::text("healthy")).with("checkedAt", Json::text(stamp)).with(
                "providerResourceId",
                resource.field_or_null("providerResourceId"),
            ).with("evidence", Json::one(evidence)),
        )
    }

    /// Observes a resource.
    pub fn observe(&mut self, resource: &Json) -> (r: Result<Json>)
        ensures
            final(self).company() == old(self).company(),
            final(self).path() == old(self).path(),
            final(self).scores() == old(self).scores(),
            exists|stamp: Seq<char>|
                is_stamp(stamp) && #[trigger] observes(
                    history(old(self).connection()),
                    history(final(self).connection()),
                    old(self).company(),
                    resource.deep_view(),
                    stamp,
                    outcome(r),
                ),
    {
        let stamp = utc_stamp();
        self.observe_at(resource, stamp.as_str())
    }

    /// Performs an operation on the memory, at `now` in seconds since 1970 and at
    /// the time `stamp`.
    pub fn invoke_at(&mut self, operation: &str, input: &Json, now: i64, stamp: &str) -> (r: Result<Json>)
        ensures
            final(self).company() == old(self).company(),
            final(self).path() == old(self).path(),
            final(self).scores() == old(self).scores(),
            continues(history(old(self).connection()), history(final(self).connection())),
            invokes(
                since(history(old(self).connection()), history(final(self).connection())),
                old(self).company(),
                operation@,
                input.deep_view(),
                now,
                stamp@,
                old(self).scores(),
                outcome(r),
            ),
    {
        let ghost start = history(self.conn);
        assert(since(start, start) =~= Seq::<Exchange>::empty());
        self.require_company(input)?;
        if same(operation, "index") || same(operation, "update") {
            self.index(input, now, stamp)
        } else if same(operation, "remove") {
            self.remove(input)
        } else if same(operation, "retrieve") {
            self.retrieve(input)
        } else if same(operation, "search") {
            self.search(input)
        } else {
            let mut message = "unsupported Provider operation: ".to_owned();
            message.append(operation);
            Err(CortexError::Config(message))
        }
    }

    /// Performs an operation on the memory, at `now` in seconds since 1970.
    pub fn invoke(&mut self, operation: &str, input: &Json, now: i64) -> (r: Result<Json>)
        ensures
            final(self).company() == old(self).company(),
            final(self).path() == old(self).path(),
            final(self).scores() == old(self).scores(),
            continues(history(old(self).connection()), history(final(self).connection())),
            exists|stamp: Seq<char>|
                is_stamp(stamp) && #[trigger] invokes(
                    since(history(old(self).connection()), history(final(self).connection())),
                    old(self).company(),
                    operation@,
                    input.deep_view(),
                    now,
                    stamp,
                    old(self).scores(),
                    outcome(r),
                ),
    {
        let stamp = utc_stamp();
        self.invoke_at(operation, input, now, stamp.as_str())
    }

    /// Refuses a request for another company.
    fn require_company(&self, input: &Json) -> (r: Result<()>)
        ensures
            done(r) == if text_of(field(input.deep_view(), "companyId"@)) == Some(self.company()) {
                Read::<()>::Ok(())
            } else {
                Read::<()>::Err(FaultV::Config(FOREIGN_COMPANY@))
            },
    {
        if let Some(company) = input.get_text("companyId") {
            if same(company, self.company_id.as_str()) {
                return Ok(());
            }
        }
        Err(CortexError::config(FOREIGN_COMPANY))
    }

    /// Stores an item, or replaces the one with the same ID.
    fn index(&mut self, input: &Json, now: i64, stamp: &str) -> (r: Result<Json>)
        ensures
            final(self).company() == old(self).company(),
            final(self).path() == old(self).path(),
            final(self).scores() == old(self).scores(),
            continues(history(old(self).connection()), history(final(self).connection())),
            indexes(
                since(history(old(self).connection()), history(final(self).connection())),
                old(self).company(),
                input.deep_view(),
                now,
                stamp@,
                old(self).scores(),
                outcome(r),
            ),
    {
        let ghost start = history(self.conn);
        assert(since(start, start) =~= Seq::<Exchange>::empty());
        let item = read_item(input)?;
        let id = item_id(item)?;
        check_provenance(item)?;
        let node = make_titled_node(item, render(item).as_str(), now, self.fact_scores);
        let stored = upsert_node(&mut self.conn, &node);
        proof {
            lemma_since_step(start, start, history(self.conn));
        }
        if let Err(e) = stored {
            return Err(e);
        }
        Ok(
            Json::object().with("id", Json::text(id)).with("companyId", Json::Text(self.company_id.clone())).with(
                "indexedAt",
                Json::text(stamp),
            ),
        )
    }

    /// Removes an item.
    fn remove(&mut self, input: &Json) -> (r: Result<Json>)
        ensures
            final(self).company() == old(self).company(),
            final(self).path() == old(self).path(),
            final(self).scores() == old(self).scores(),
            continues(history(old(self).connection()), history(final(self).connection())),
            removes(
                since(history(old(self).connection()), history(final(self).connection())),
                input.deep_view(),
                outcome(r),
            ),
    {
        let ghost start = history(self.conn);
        assert(since(start, start) =~= Seq::<Exchange>::empty());
        let id = match input.get_text("id") {
            Some(id) => id,
            None => {
                return Err(CortexError::config("remove requires id"));
            },
        };
        let removed = delete_node(&mut self.conn, id)?;
        Ok(Json::Bool(removed))
    }

    /// Retrieves an item.
    fn retrieve(&mut self, input: &Json) -> (r: Result<Json>)
        ensures
            final(self).company() == old(self).company(),
            final(self).path() == old(self).path(),
            final(self).scores() == old(self).scores(),
            continues(history(old(self).connection()), history(final(self).connection())),
            retrieves(
                since(history(old(self).connection()), history(final(self).connection())),
                input.deep_view(),
                outcome(r),
            ),
    {
        let ghost start = history(self.conn);
        assert(since(start, start) =~= Seq::<Exchange>::empty());
        let id = match input.get_text("id") {
            Some(id) => id,
            None => {
                return Err(CortexError::config("retrieve requires id"));
            },
        };
        let node = get_node(&mut self.conn, id);
        proof {
            lemma_since_step(start, start, history(self.conn));
        }
        match node? {
            Some(node) => match node_item(&node) {
                Some(item) => Ok(result(&item, FULL_RELEVANCE)),
                None => Ok(Json::Null),
            },
            None => Ok(Json::Null),
        }
    }

    /// Searches for items.
    fn search(&mut self, input: &Json) -> (r: Result<Json>)
        ensures
            final(self).company() == old(self).company(),
            final(self).path() == old(self).path(),
            final(self).scores() == old(self).scores(),
            continues(history(old(self).connection()), history(final(self).connection())),
            searches(
                since(history(old(self).connection()), history(final(self).connection())),
                input.deep_view(),
                outcome(r),
            ),
    {
        let ghost start = history(self.conn);
        assert(since(start, start) =~= Seq::<Exchange>::empty());
        let query = match input.get_text("query") {
            Some(query) => query,
            None => "",
        };
        let limit: usize = read_limit(input);
        let nodes = search_nodes_text(&mut self.conn, query, limit);
        proof {
            lemma_since_step(start, start, history(self.conn));
        }
        let nodes = nodes?;
        let ghost all = nodes.deep_view();
        let mut items: Vec<Json> = Vec::new();
        let mut i: usize = 0;
        while i < nodes.len()
            invariant
                i <= nodes.len(),
                all == nodes.deep_view(),
                items_view(items@) == hits(all.take(i as int)),
            decreases nodes.len() - i,
        {
            assert(all.take(i + 1).drop_last() =~= all.take(i as int));
            assert(all.take(i + 1).last() == nodes[i as int].deep_view());
            if let Some(item) = node_item(&nodes[i]) {
                let ghost had = items@;
                items.push(result(&item, FULL_RELEVANCE));
                assert(items@.drop_last() =~= had);
            }
            i = i + 1;
        }
        assert(all.take(all.len() as int) =~= all);
        Ok(Json::Array(items))
    }
}

/// The state of a Provider, by whether a database is configured.
pub open spec fn status_json(configured: bool) -> JsonV {
    empty_object().with("implementation_available"@, JsonV::Bool(true)).with("configured"@, JsonV::Bool(configured)).with(
        "connected"@,
        JsonV::Bool(true),
    ).with("healthy"@, JsonV::Bool(true))
}

/// An action that a Provider of memory can take: one on memory that names a
/// resource.
pub open spec fn valid_action(action: JsonV) -> bool {
    &&& text_of(field(action, "family"@)) == Some("memory"@)
    &&& text_of(field(action, "resourceId"@)) is Some
}

/// The outcome of checking an action.
pub open spec fn validation_json(action: JsonV) -> JsonV {
    let issue = empty_object().with("message"@, JsonV::Text("Omnicede requires a memory action with resourceId"@));
    empty_object().with("valid"@, JsonV::Bool(valid_action(action))).with(
        "issues"@,
        JsonV::Array(
            if valid_action(action) {
                Seq::empty()
            } else {
                seq![issue]
            },
        ),
    )
}

/// Can a Provider of memory take an action?
fn is_valid(action: &Json) -> (r: bool)
    ensures
        r == valid_action(action.deep_view()),
{
    match action.get_text("family") {
        Some(family) => same(family, "memory") && action.get_text("resourceId").is_some(),
        None => false,
    }
}

/// The plan for an action.
pub open spec fn plan_json(action: JsonV) -> JsonV {
    empty_object().with("deterministic"@, JsonV::Bool(true)).with("actionId"@, or_null(field(action, "id"@)))
}

/// What applying an action for a company gives.
pub open spec fn application(company: Seq<char>, action: JsonV) -> Read<JsonV> {
    if valid_action(action) {
        Ok(
            empty_object().with(
                "providerResourceId"@,
                JsonV::Text("omnicede/memory/"@ + company + "/"@ + text_of(field(action, "resourceId"@))->0),
            ).with("status"@, JsonV::Text("deployed"@)).with(
                "attributes"@,
                empty_object().with("companyId"@, JsonV::Text(company)).with("durable"@, JsonV::Bool(true)).with(
                    "storage"@,
                    JsonV::Text("sqlite"@),
                ),
            ),
        )
    } else {
        Err(FaultV::Config("invalid Omnicede memory action"@))
    }
}

/// A time in UTC as a text has at least a date, a time of day with its seconds,
/// and the offset, which is zero.
pub open spec fn is_stamp(stamp: Seq<char>) -> bool {
    stamp.len() >= 25 && stands_at(stamp, "+00:00"@, stamp.len() - 6)
}

/// `chrono::Utc::now` and `DateTime::to_rfc3339`: the time, as a text that has the
/// form of one. Which time it is depends on the clock.
#[verifier::external_body]
pub(crate) fn utc_stamp() -> (r: String)
    ensures
        is_stamp(r@),
{
    chrono::Utc::now().to_rfc3339()
}

/// What an observation reports.
pub open spec fn observation_json(company: Seq<char>, resource: JsonV, stamp: Seq<char>, count: i64) -> JsonV {
    empty_object().with("status"@, JsonV::Text("healthy"@)).with("checkedAt"@, JsonV::Text(stamp)).with(
        "providerResourceId"@,
        or_null(field(resource, "providerResourceId"@)),
    ).with(
        "evidence"@,
        JsonV::Array(
            seq![
                empty_object().with("type"@, JsonV::Text("omnicede_memory_observation"@)).with(
                    "source"@,
                    JsonV::Text("omnicede"@),
                ).with("value"@, JsonV::Text("healthy"@)).with("companyId"@, JsonV::Text(company)).with(
                    "nodeCount"@,
                    JsonV::Integer(count as int),
                ).with("providerVersion"@, JsonV::Text(VERSION@)),
            ],
        ),
    )
}

/// How a resource is observed: the nodes are counted.
pub open spec fn observes(
    before: Seq<Exchange>,
    after: Seq<Exchange>,
    company: Seq<char>,
    resource: JsonV,
    stamp: Seq<char>,
    r: Read<JsonV>,
) -> bool {
    &&& queried(before, after, statement(NODE_COUNT@, Seq::empty()))
    &&& match count_of(after.last().reply) {
        Err(f) => r == Read::<JsonV>::Err(f),
        Ok(count) => r == Read::<JsonV>::Ok(observation_json(company, resource, stamp, count)),
    }
}

/// The answer to a request for another company.
pub const FOREIGN_COMPANY: &'static str = "memory request crosses the configured company boundary";

/// The item that a request to index holds, with a usable ID and provenance.
pub open spec fn indexed_item(input: JsonV) -> Read<JsonV> {
    let item = or_null(field(input, "item"@));
    let provenance = or_null(field(item, "provenance"@));
    if !(item is Object) {
        Err(FaultV::Config("index requires item"@))
    } else if text_of(field(item, "id"@)) is None || text_of(field(item, "id"@))->0.len() == 0 {
        Err(FaultV::Config("memory item requires id"@))
    } else if !(provenance is Object) {
        Err(FaultV::Config("memory item requires provenance"@))
    } else if text_of(field(provenance, "sourceReference"@)) is None || text_of(field(provenance, "kind"@)) is None {
        Err(FaultV::Config("memory item provenance requires sourceReference and kind"@))
    } else {
        Ok(item)
    }
}

/// The title of an item: its own, or its summary, or its ID.
pub open spec fn item_title(item: JsonV) -> Seq<char> {
    match text_of(field(item, "title"@)) {
        Some(title) => title,
        None => match text_of(field(item, "summary"@)) {
            Some(summary) => summary,
            None => text_of(field(item, "id"@))->0,
        },
    }
}

/// A fact with the ID and the title of an item, and with a body.
pub open spec fn titled_node(item: JsonV, body: Seq<char>, now: i64, scores: Scores) -> NodeV {
    NodeV {
        body: Some(body),
        ..new_node(text_of(field(item, "id"@))->0, NodeKind::Fact, item_title(item), now, scores)
    }
}

/// The node that an item is kept in, with the item as JSON in its body.
pub open spec fn item_node(item: JsonV, now: i64, scores: Scores) -> NodeV {
    titled_node(item, rendered(item), now, scores)
}

/// A fact with the ID and the title of an item that has an ID, and with a body.
pub fn make_titled_node(item: &Json, body: &str, now: i64, scores: Scores) -> (r: Node)
    requires
        text_of(field(item.deep_view(), "id"@)) is Some,
    ensures
        r.deep_view() == titled_node(item.deep_view(), body@, now, scores),
{
    let id = match item.get_text("id") {
        Some(id) => id,
        None => "",
    };
    let title = match item.get_text("title") {
        Some(title) => title,
        None => match item.get_text("summary") {
            Some(summary) => summary,
            None => id,
        },
    };
    Node::new(NodeKind::Fact, title, NodeSeed { id: id.to_owned(), now, scores }).with_body(body)
}

/// The answer to a request to index an item.
pub open spec fn receipt_json(item: JsonV, company: Seq<char>, stamp: Seq<char>) -> JsonV {
    empty_object().with("id"@, JsonV::Text(text_of(field(item, "id"@))->0)).with("companyId"@, JsonV::Text(company)).with(
        "indexedAt"@,
        JsonV::Text(stamp),
    )
}

/// How an item is indexed: its node is stored or replaced.
pub open spec fn indexes(
    log: Seq<Exchange>,
    company: Seq<char>,
    input: JsonV,
    now: i64,
    stamp: Seq<char>,
    scores: Scores,
    r: Read<JsonV>,
) -> bool {
    match indexed_item(input) {
        Err(f) => log.len() == 0 && r == Read::<JsonV>::Err(f),
        Ok(item) => {
            &&& log.len() == 1
            &&& log[0].statement == statement(UPSERT_NODE@, node_cells(item_node(item, now, scores)))
            &&& log[0].reply is Changed
            &&& plain(item, MAX_DEPTH as nat) ==> item_in(item_node(item, now, scores)) == Some(item)
            &&& match completed(log[0].reply) {
                Err(f) => r == Read::<JsonV>::Err(f),
                Ok(_) => r == Read::<JsonV>::Ok(receipt_json(item, company, stamp)),
            }
        },
    }
}

/// How an item is removed: its node is deleted with all that refers to it.
pub open spec fn removes(log: Seq<Exchange>, input: JsonV, r: Read<JsonV>) -> bool {
    match text_of(field(input, "id"@)) {
        None => log.len() == 0 && r == Read::<JsonV>::Err(FaultV::Config("remove requires id"@)),
        Some(id) => {
            &&& ran(log, delete_statements(id), plainly(r))
            &&& r matches Ok(removed) ==> any_changed(log.last().reply) matches Ok(any) && removed == JsonV::Bool(any)
        },
    }
}

/// The item in a node, where its body is JSON.
pub open spec fn item_in(node: NodeV) -> Option<JsonV> {
    match node.body {
        Some(body) => parsed(body),
        None => None,
    }
}

/// The field `key` of an object, or `other` where it is missing.
pub open spec fn field_or(object: JsonV, key: Seq<char>, other: JsonV) -> JsonV {
    match field(object, key) {
        Some(value) => value,
        None => other,
    }
}

/// Full relevance: the number one.
pub const FULL_RELEVANCE: RealBits = 0x3ff0_0000_0000_0000;

/// An item as a result of a request. What is no object counts as one without
/// fields.
pub open spec fn result_json(item: JsonV, relevance: JsonV) -> JsonV {
    let object = if item is Object {
        item
    } else {
        empty_object()
    };
    let provenance = field_or(object, "provenance"@, empty_object());
    empty_object().with("id"@, or_null(field(object, "id"@))).with(
        "sourceReference"@,
        or_null(field(provenance, "sourceReference"@)),
    ).with("kind"@, or_null(field(provenance, "kind"@))).with("title"@, or_null(field(object, "title"@))).with(
        "summary"@,
        or_null(field(object, "summary"@)),
    ).with("content"@, or_null(field(object, "content"@))).with("provenance"@, provenance).with(
        "relevanceScore"@,
        relevance,
    ).with("capabilityReferences"@, field_or(object, "capabilityReferences"@, JsonV::Array(Seq::empty()))).with(
        "evidenceReferences"@,
        field_or(object, "evidenceReferences"@, JsonV::Array(Seq::empty())),
    ).with("metadata"@, field_or(object, "metadata"@, empty_object()))
}

/// An item as a result of full relevance.
pub open spec fn full_result(item: JsonV) -> JsonV {
    result_json(item, JsonV::Real(FULL_RELEVANCE))
}

/// How an item is retrieved: its node is looked up. Null stands for an item that
/// is not there or whose node holds no JSON.
pub open spec fn retrieves(log: Seq<Exchange>, input: JsonV, r: Read<JsonV>) -> bool {
    match text_of(field(input, "id"@)) {
        None => log.len() == 0 && r == Read::<JsonV>::Err(FaultV::Config("retrieve requires id"@)),
        Some(id) => {
            &&& log.len() == 1
            &&& log[0].statement == statement(GET_NODE@, seq![SqlV::Text(id)])
            &&& log[0].reply is Rows
            &&& match node_of(log[0].reply) {
                Err(f) => r == Read::<JsonV>::Err(f),
                Ok(node) => r == Read::<JsonV>::Ok(retrieved(node)),
            }
        },
    }
}

/// What is retrieved of a node.
pub open spec fn retrieved(node: Option<NodeV>) -> JsonV {
    match node {
        None => JsonV::Null,
        Some(node) => match item_in(node) {
            Some(item) => full_result(item),
            None => JsonV::Null,
        },
    }
}

/// How many results a search without a limit gives at most.
pub const DEFAULT_LIMIT: usize = 20;

/// How many results any search gives at most.
pub const MAX_LIMIT: usize = 100;

/// How many results a search gives at most.
pub open spec fn search_limit(input: JsonV) -> usize {
    match field(input, "limit"@) {
        Some(JsonV::Integer(n)) => if 0 <= n <= u64::MAX {
            if n < MAX_LIMIT {
                n as usize
            } else {
                MAX_LIMIT
            }
        } else {
            DEFAULT_LIMIT
        },
        _ => DEFAULT_LIMIT,
    }
}

/// Reads how many results a search gives at most.
fn read_limit(input: &Json) -> (r: usize)
    ensures
        r == search_limit(input.deep_view()),
{
    let asked = match input.get("limit") {
        Some(limit) => limit.as_u64(),
        None => None,
    };
    match asked {
        Some(n) => if n < MAX_LIMIT as u64 {
            n as usize
        } else {
            MAX_LIMIT
        },
        None => DEFAULT_LIMIT,
    }
}

/// The items in some nodes as results, without the nodes that hold no JSON.
pub open spec fn hits(nodes: Seq<NodeV>) -> Seq<JsonV>
    decreases nodes.len(),
{
    if nodes.len() == 0 {
        Seq::empty()
    } else {
        match item_in(nodes.last()) {
            Some(item) => hits(nodes.drop_last()).push(full_result(item)),
            None => hits(nodes.drop_last()),
        }
    }
}

/// The text that a search looks for.
pub open spec fn search_text(input: JsonV) -> Seq<char> {
    match text_of(field(input, "query"@)) {
        Some(query) => query,
        None => ""@,
    }
}

/// How items are searched for: by the text in their nodes.
pub open spec fn searches(log: Seq<Exchange>, input: JsonV, r: Read<JsonV>) -> bool {
    &&& log.len() == 1
    &&& log[0].statement == statement(
        SEARCH_NODES@,
        seq![SqlV::Text(search_pattern(search_text(input))), SqlV::Integer(search_limit(input) as i64)],
    )
    &&& log[0].reply is Rows
    &&& match nodes_of(log[0].reply) {
        Err(f) => r == Read::<JsonV>::Err(f),
        Ok(nodes) => r == Read::<JsonV>::Ok(JsonV::Array(hits(nodes))),
    }
}

/// How an operation is performed: never for another company, and only those that
/// are known.
pub open spec fn invokes(
    log: Seq<Exchange>,
    company: Seq<char>,
    operation: Seq<char>,
    input: JsonV,
    now: i64,
    stamp: Seq<char>,
    scores: Scores,
    r: Read<JsonV>,
) -> bool {
    if text_of(field(input, "companyId"@)) != Some(company) {
        log.len() == 0 && r == Read::<JsonV>::Err(FaultV::Config(FOREIGN_COMPANY@))
    } else if operation == "index"@ || operation == "update"@ {
        indexes(log, company, input, now, stamp, scores, r)
    } else if operation == "remove"@ {
        removes(log, input, r)
    } else if operation == "retrieve"@ {
        retrieves(log, input, r)
    } else if operation == "search"@ {
        searches(log, input, r)
    } else {
        &&& log.len() == 0
        &&& r == Read::<JsonV>::Err(FaultV::Config("unsupported Provider operation: "@ + operation))
    }
}

/// Reads the item of a request to index.
fn read_item(input: &Json) -> (r: Result<&Json>)
    ensures
        match r {
            Ok(item) => field(input.deep_view(), "item"@) == Some(item.deep_view()) && item.deep_view() is Object,
            Err(e) => {
                &&& !(or_null(field(input.deep_view(), "item"@)) is Object)
                &&& e.deep_view() == FaultV::Config("index requires item"@)
            },
        },
{
    if let Some(item) = input.get("item") {
        if item.is_object() {
            return Ok(item);
        }
    }
    Err(CortexError::config("index requires item"))
}

/// Reads the ID of an item.
fn item_id(item: &Json) -> (r: Result<&str>)
    ensures
        match r {
            Ok(id) => text_of(field(item.deep_view(), "id"@)) == Some(id@) && id@.len() > 0,
            Err(e) => {
                &&& text_of(field(item.deep_view(), "id"@)) matches Some(id) ==> id.len() == 0
                &&& e.deep_view() == FaultV::Config("memory item requires id"@)
            },
        },
{
    if let Some(id) = item.get_text("id") {
        if !is_empty(id) {
            return Ok(id);
        }
    }
    Err(CortexError::config("memory item requires id"))
}

/// Checks that an item says where it comes from.
fn check_provenance(item: &Json) -> (r: Result<()>)
    ensures
        ({
            let provenance = or_null(field(item.deep_view(), "provenance"@));
            done(r) == if !(provenance is Object) {
                Read::<()>::Err(FaultV::Config("memory item requires provenance"@))
            } else if text_of(field(provenance, "sourceReference"@)) is None || text_of(
                field(provenance, "kind"@),
            ) is None {
                Read::<()>::Err(FaultV::Config("memory item provenance requires sourceReference and kind"@))
            } else {
                Read::<()>::Ok(())
            }
        }),
{
    let provenance = match item.get("provenance") {
        Some(provenance) => provenance,
        None => {
            return Err(CortexError::config("memory item requires provenance"));
        },
    };
    if !provenance.is_object() {
        return Err(CortexError::config("memory item requires provenance"));
    }
    if provenance.get_text("sourceReference").is_none() || provenance.get_text("kind").is_none() {
        return Err(CortexError::config("memory item provenance requires sourceReference and kind"));
    }
    Ok(())
}

/// The item in a node.
pub fn node_item(node: &Node) -> (r: Option<Json>)
    ensures
        match r {
            Some(item) => item_in(node.deep_view()) == Some(item.deep_view()),
            None => item_in(node.deep_view()) is None,
        },
{
    match &node.body {
        Some(body) => parse(body.as_str()),
        None => None,
    }
}

/// A copy of the field `key` of an object, or `other` where it is missing.
pub(crate) fn copied_field_or(object: &Json, key: &str, other: Json) -> (r: Json)
    ensures
        r.deep_view() == field_or(object.deep_view(), key@, other.deep_view()),
{
    match object.get(key) {
        Some(value) => value.copy(),
        None => other,
    }
}

/// An item as a result of a request, with a relevance.
pub fn result(item: &Json, relevance: RealBits) -> (r: Json)
    ensures
        r.deep_view() == result_json(item.deep_view(), Json::Real(relevance).deep_view()),
{
    let none = Json::object();
    let object = if item.is_object() {
        item
    } else {
        &none
    };
    let provenance = copied_field_or(object, "provenance", Json::object());
    Json::object().with("id", object.field_or_null("id")).with(
        "sourceReference",
        provenance.field_or_null("sourceReference"),
    ).with("kind", provenance.field_or_null("kind")).with("title", object.field_or_null("title")).with(
        "summary",
        object.field_or_null("summary"),
    ).with("content", object.field_or_null("content")).with("provenance", provenance).with(
        "relevanceScore",
        Json::Real(relevance),
    ).with("capabilityReferences", copied_field_or(object, "capabilityReferences", Json::empty_array())).with(
        "evidenceReferences",
        copied_field_or(object, "evidenceReferences", Json::empty_array()),
    ).with("metadata", copied_field_or(object, "metadata", Json::object()))
}

/// A request for another company changes nothing, asks nothing and is refused.
pub proof fn law_foreign_company_is_refused(
    log: Seq<Exchange>,
    company: Seq<char>,
    operation: Seq<char>,
    input: JsonV,
    now: i64,
    stamp: Seq<char>,
    scores: Scores,
    r: Read<JsonV>,
)
    requires
        invokes(log, company, operation, input, now, stamp, scores, r),
        text_of(field(input, "companyId"@)) != Some(company),
    ensures
        log.len() == 0,
        r == Read::<JsonV>::Err(FaultV::Config(FOREIGN_COMPANY@)),
{
}

/// What was indexed is retrieved: where the lookup is answered by the node that
/// the item was stored in, whenever that was created and however often it was
/// accessed, the result is the item. Items with real numbers in them, whose
/// digits may be read back otherwise, and items nested deeper than JSON is read
/// are left out.
pub proof fn law_indexed_item_is_retrieved(
    company: Seq<char>,
    index_input: JsonV,
    now: i64,
    stamp: Seq<char>,
    scores: Scores,
    index_log: Seq<Exchange>,
    receipt: Read<JsonV>,
    stored: NodeV,
    input: JsonV,
    log: Seq<Exchange>,
    r: Read<JsonV>,
)
    requires
        indexes(index_log, company, index_input, now, stamp, scores, receipt),
        receipt is Ok,
        plain(or_null(field(index_input, "item"@)), MAX_DEPTH as nat),
        index_log[0].statement.params == node_cells(
            NodeV {
                access_count: 0,
                created_at: now,
                last_access: None,
                ..stored
            },
        ),
        retrieves(log, input, r),
        text_of(field(input, "id"@)) is Some,
        log[0].reply matches ReplyV::Rows(Ok(rows)) && rows == seq![RowV::Ok(node_cells(stored))],
    ensures
        r == Read::<JsonV>::Ok(full_result(or_null(field(index_input, "item"@)))),
{
    let item = or_null(field(index_input, "item"@));
    let node = item_node(item, now, scores);
    let kept = NodeV { access_count: 0, created_at: now, last_access: None, ..stored };
    law_node_reads_back(node);
    assert(node_cells(kept)[3] == node_cells(node)[3]);
    assert(node_cells(kept)[10] == node_cells(node)[10]);
    law_node_reads_back(stored);
    assert(node_of(log[0].reply) == Read::<Option<NodeV>>::Ok(Some(stored)));
}

/// A search never asks for more results than the limit allows.
pub proof fn law_search_is_limited(input: JsonV)
    ensures
        search_limit(input) <= MAX_LIMIT,
{
}

/// A search gives no more results than nodes that answer it.
pub proof fn law_hits_are_no_more_than_nodes(nodes: Seq<NodeV>)
    ensures
        hits(nodes).len() <= nodes.len(),
    decreases nodes.len(),
{
    if nodes.len() > 0 {
        law_hits_are_no_more_than_nodes(nodes.drop_last());
    }
}

}
