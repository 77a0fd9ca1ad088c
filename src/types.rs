use vstd::prelude::*;

verus! {

/// The view of an optional string.
pub open spec fn opt_view(o: Option<String>) -> Option<Seq<char>> {
    match o {
        Some(s) => Some(s@),
        None => None,
    }
}

/// A copy of an optional string.
pub fn clone_opt(o: &Option<String>) -> (r: Option<String>)
    ensures
        opt_view(r) == opt_view(*o),
{
    match o {
        Some(s) => Some(s.clone()),
        None => None,
    }
}

/// A request handed to a module through its inbox.
pub struct ModuleRequest {
    pub operation: String,
    pub resource: String,
    pub module: String,
    pub timestamp: i64,
    pub source: Option<String>,
    pub attribute: Option<String>,
    pub old_value: Option<String>,
    pub new_value: Option<String>,
}

/// The abstract content of a request.
pub struct RequestView {
    pub operation: Seq<char>,
    pub resource: Seq<char>,
    pub module: Seq<char>,
    pub timestamp: int,
    pub source: Option<Seq<char>>,
    pub attribute: Option<Seq<char>>,
    pub old_value: Option<Seq<char>>,
    pub new_value: Option<Seq<char>>,
}

impl RequestView {
    /// The request's identity for deduplication: everything but its timestamp.
    pub open spec fn without_timestamp(self) -> RequestView {
        RequestView { timestamp: 0, ..self }
    }

    pub open spec fn discovery(resource: Seq<char>, module: Seq<char>, source: Seq<char>, ts: int) -> RequestView {
        RequestView {
            operation: "discovery"@,
            resource,
            module,
            timestamp: ts,
            source: Some(source),
            attribute: None,
            old_value: None,
            new_value: None,
        }
    }

    pub open spec fn observation(resource: Seq<char>, module: Seq<char>, ts: int) -> RequestView {
        RequestView {
            operation: "observation"@,
            resource,
            module,
            timestamp: ts,
            source: None,
            attribute: None,
            old_value: None,
            new_value: None,
        }
    }

    pub open spec fn change(
        resource: Seq<char>,
        module: Seq<char>,
        attribute: Seq<char>,
        old_value: Seq<char>,
        new_value: Seq<char>,
        ts: int,
    ) -> RequestView {
        RequestView {
            operation: "change"@,
            resource,
            module,
            timestamp: ts,
            source: None,
            attribute: Some(attribute),
            old_value: Some(old_value),
            new_value: Some(new_value),
        }
    }
}

impl View for ModuleRequest {
    type V = RequestView;

    open spec fn view(&self) -> RequestView {
        RequestView {
            operation: self.operation@,
            resource: self.resource@,
            module: self.module@,
            timestamp: self.timestamp as int,
            source: opt_view(self.source),
            attribute: opt_view(self.attribute),
            old_value: opt_view(self.old_value),
            new_value: opt_view(self.new_value),
        }
    }
}

/// The views of a sequence of requests.
pub open spec fn requests_view(rs: Seq<ModuleRequest>) -> Seq<RequestView> {
    rs.map_values(|r: ModuleRequest| r@)
}

impl ModuleRequest {
    pub fn discovery(resource: &str, module: &str, source: &str, timestamp: i64) -> (r: Self)
        ensures
            r@ == RequestView::discovery(resource@, module@, source@, timestamp as int),
    {
        ModuleRequest {
            operation: String::from_str("discovery"),
            resource: String::from_str(resource),
            module: String::from_str(module),
            timestamp,
            source: Some(String::from_str(source)),
            attribute: None,
            old_value: None,
            new_value: None,
        }
    }

    pub fn observation(resource: &str, module: &str, timestamp: i64) -> (r: Self)
        ensures
            r@ == RequestView::observation(resource@, module@, timestamp as int),
    {
        ModuleRequest {
            operation: String::from_str("observation"),
            resource: String::from_str(resource),
            module: String::from_str(module),
            timestamp,
            source: None,
            attribute: None,
            old_value: None,
            new_value: None,
        }
    }

    pub fn change(
        resource: &str,
        module: &str,
        attribute: &str,
        old_value: &str,
        new_value: &str,
        timestamp: i64,
    ) -> (r: Self)
        ensures
            r@ == RequestView::change(
                resource@,
                module@,
                attribute@,
                old_value@,
                new_value@,
                timestamp as int,
            ),
    {
        ModuleRequest {
            operation: String::from_str("change"),
            resource: String::from_str(resource),
            module: String::from_str(module),
            timestamp,
            source: None,
            attribute: Some(String::from_str(attribute)),
            old_value: Some(String::from_str(old_value)),
            new_value: Some(String::from_str(new_value)),
        }
    }

    /// A field-by-field copy.
    pub fn copy(&self) -> (r: Self)
        ensures
            r@ == self@,
    {
        ModuleRequest {
            operation: self.operation.clone(),
            resource: self.resource.clone(),
            module: self.module.clone(),
            timestamp: self.timestamp,
            source: clone_opt(&self.source),
            attribute: clone_opt(&self.attribute),
            old_value: clone_opt(&self.old_value),
            new_value: clone_opt(&self.new_value),
        }
    }
}

/// A JSON value as the engine reads it. Numbers carry their canonical decimal
/// text; arrays and objects carry their compact JSON serialization.
pub enum JsonValue {
    Null,
    Bool(bool),
    Number(String),
    Str(String),
    Nested(String),
}

/// The string stored in the database for a JSON value.
pub open spec fn db_string(v: JsonValue) -> Seq<char> {
    match v {
        JsonValue::Null => Seq::empty(),
        JsonValue::Bool(b) => if b { "true"@ } else { "false"@ },
        JsonValue::Number(t) => t@,
        JsonValue::Str(s) => s@,
        JsonValue::Nested(t) => t@,
    }
}

/// Flattens a JSON value to the string stored in the database.
pub fn value_to_db_string(v: &JsonValue) -> (r: String)
    ensures
        r@ == db_string(*v),
{
    match v {
        JsonValue::Null => String::new(),
        JsonValue::Bool(b) => if *b {
            String::from_str("true")
        } else {
            String::from_str("false")
        },
        JsonValue::Number(t) => t.clone(),
        JsonValue::Str(s) => s.clone(),
        JsonValue::Nested(t) => t.clone(),
    }
}

/// A response read from a module's outbox.
pub struct ModuleResponse {
    pub operation: String,
    pub resource: String,
    pub module: String,
    pub timestamp: i64,
    pub source: Option<String>,
    pub attribute: Option<String>,
    pub value: Option<JsonValue>,
    pub old_value: Option<JsonValue>,
    pub new_value: Option<JsonValue>,
    pub severity: Option<String>,
}

/// A claim that `resource` exists for `module`, attributed to `source`.
pub struct Discovery {
    pub resource: String,
    pub module: String,
    pub source: String,
}

/// An observation; `timestamp` is in seconds since the epoch (UTC).
pub struct Observation {
    pub resource: String,
    pub module: String,
    pub attribute: String,
    pub value: String,
    pub timestamp: i64,
    pub severity: String,
}

/// A row of the resource registry, keyed by (module, resource).
pub struct Resource {
    pub resource: String,
    pub module: String,
    pub source: Option<String>,
}

impl Resource {
    pub fn from_discovery(d: &Discovery) -> (r: Self)
        ensures
            r.resource@ == d.resource@,
            r.module@ == d.module@,
            opt_view(r.source) == Some(d.source@),
    {
        Resource { resource: d.resource.clone(), module: d.module.clone(), source: Some(d.source.clone()) }
    }
}

/// A change of an attribute's value, awaiting or carrying a severity;
/// `timestamp` is in seconds since the epoch.
pub struct Change {
    pub resource: String,
    pub module: String,
    pub attribute: String,
    pub old_value: String,
    pub new_value: String,
    pub severity: String,
    pub timestamp: i64,
}

impl Change {
    pub fn to_request(&self) -> (r: ModuleRequest)
        ensures
            r@ == RequestView::change(
                self.resource@,
                self.module@,
                self.attribute@,
                self.old_value@,
                self.new_value@,
                self.timestamp as int,
            ),
    {
        ModuleRequest::change(
            self.resource.as_str(),
            self.module.as_str(),
            self.attribute.as_str(),
            self.old_value.as_str(),
            self.new_value.as_str(),
            self.timestamp,
        )
    }
}

/// Resources declared for a set of modules.
pub struct ConfigTarget {
    pub modules: Vec<String>,
    pub resources: Vec<String>,
}

/// How to run a module; a slow module is never spawned by the engine.
pub struct ModuleConfig {
    pub command: String,
    pub slow: bool,
}

/// The configuration document: modules by name, and declared targets.
pub struct Config {
    pub targets: Vec<ConfigTarget>,
    pub modules: Vec<(String, ModuleConfig)>,
}

} // verus!
