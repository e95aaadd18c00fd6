//! The typed settings schema, how it is read out of a merged document
//! (with numeric-from-string coercion for ports), and the connection
//! descriptors derived from it.

use vstd::prelude::*;

use crate::document::Doc;
use crate::document::Value;
use crate::document::entries_view;
use crate::document::get_entry;
use crate::document::table_get;
use crate::document::doc_get;
use crate::error::ConfigError;
use crate::secret::Secret;
use crate::text::parse_u16;
use crate::text::parse_u16_spec;
use crate::text::parse_u64;
use crate::text::parse_u64_spec;
use crate::text::str_eq;

verus! {

/// Database connection settings.
#[derive(Clone)]
pub struct PostgresSettings {
    pub username: String,
    pub password: Secret<String>,
    pub port: u16,
    pub host: String,
    pub database_name: String,
    pub require_ssl: bool,
}

/// Cache connection settings; credentials are independently optional.
#[derive(Clone)]
pub struct RedisSettings {
    pub port: u16,
    pub host: String,
    pub username: Option<String>,
    pub password: Option<Secret<String>>,
}

/// Application-level settings.
#[derive(Clone)]
pub struct ApplicationSettings {
    pub host: String,
    pub port: u16,
    /// Number of seconds until a visit by the same client address counts as
    /// a new visit again.
    pub visit_duration: u64,
}

/// The aggregate of all settings, resolved once at startup and read-only
/// afterwards.
#[derive(Clone)]
pub struct Settings {
    pub postgres: PostgresSettings,
    pub redis: RedisSettings,
    pub application: ApplicationSettings,
}

/// The string under key `k` of a table; any other shape gives `None`.
pub open spec fn doc_str_field(es: Seq<(Seq<char>, Doc)>, k: Seq<char>) -> Option<Seq<char>> {
    match get_entry(es, k) {
        Some(Doc::Str(s)) => Some(s),
        _ => None,
    }
}

/// The boolean under key `k`: a boolean value, or the strings `true` and
/// `false`.
pub open spec fn doc_bool_field(es: Seq<(Seq<char>, Doc)>, k: Seq<char>) -> Option<bool> {
    match get_entry(es, k) {
        Some(Doc::Bool(b)) => Some(b),
        Some(Doc::Str(s)) => if s == "true"@ {
            Some(true)
        } else if s == "false"@ {
            Some(false)
        } else {
            None
        },
        _ => None,
    }
}

/// The port under key `k`: an integer in range, or a numeric string — the
/// numeric-from-string coercion that every port field applies.
pub open spec fn doc_port_field(es: Seq<(Seq<char>, Doc)>, k: Seq<char>) -> Option<u16> {
    match get_entry(es, k) {
        Some(Doc::Int(i)) => if 0 <= i <= 65535 {
            Some(i as u16)
        } else {
            None
        },
        Some(Doc::Str(s)) => parse_u16_spec(s),
        _ => None,
    }
}

/// The unsigned count under key `k`: a non-negative integer, or a numeric
/// string.
pub open spec fn doc_u64_field(es: Seq<(Seq<char>, Doc)>, k: Seq<char>) -> Option<u64> {
    match get_entry(es, k) {
        Some(Doc::Int(i)) => if 0 <= i {
            Some(i as u64)
        } else {
            None
        },
        Some(Doc::Str(s)) => parse_u64_spec(s),
        _ => None,
    }
}

/// The optional string under key `k`: an absent key is `Some(None)`, a
/// string is `Some(Some(..))`, and any other shape is an error.
pub open spec fn doc_opt_str_field(es: Seq<(Seq<char>, Doc)>, k: Seq<char>) -> Option<
    Option<Seq<char>>,
> {
    match get_entry(es, k) {
        None => Some(None),
        Some(Doc::Str(s)) => Some(Some(s)),
        Some(_) => None,
    }
}

/// The entry list of the table under key `k` of document `d`.
pub open spec fn section(d: Doc, k: Seq<char>) -> Option<Seq<(Seq<char>, Doc)>> {
    match doc_get(d, k) {
        Some(Doc::Table(es)) => Some(es),
        _ => None,
    }
}

/// Whether a table satisfies the database settings schema.
pub open spec fn pg_section_ok(es: Seq<(Seq<char>, Doc)>) -> bool {
    &&& doc_str_field(es, "username"@) is Some
    &&& doc_str_field(es, "password"@) is Some
    &&& doc_port_field(es, "port"@) is Some
    &&& doc_str_field(es, "host"@) is Some
    &&& doc_str_field(es, "database_name"@) is Some
    &&& doc_bool_field(es, "require_ssl"@) is Some
}

/// How database settings relate to the table they were read from.
pub open spec fn pg_matches(es: Seq<(Seq<char>, Doc)>, s: PostgresSettings) -> bool {
    &&& doc_str_field(es, "username"@) == Some(s.username@)
    &&& doc_str_field(es, "password"@) == Some(s.password.spec_inner()@)
    &&& doc_port_field(es, "port"@) == Some(s.port)
    &&& doc_str_field(es, "host"@) == Some(s.host@)
    &&& doc_str_field(es, "database_name"@) == Some(s.database_name@)
    &&& doc_bool_field(es, "require_ssl"@) == Some(s.require_ssl)
}

/// Whether a table satisfies the cache settings schema.
pub open spec fn redis_section_ok(es: Seq<(Seq<char>, Doc)>) -> bool {
    &&& doc_port_field(es, "port"@) is Some
    &&& doc_str_field(es, "host"@) is Some
    &&& doc_opt_str_field(es, "username"@) is Some
    &&& doc_opt_str_field(es, "password"@) is Some
}

/// The view of an optional string.
pub open spec fn opt_str_view(o: Option<String>) -> Option<Seq<char>> {
    match o {
        Some(s) => Some(s@),
        None => None,
    }
}

/// The view of an optional secret string.
pub open spec fn opt_secret_view(o: Option<Secret<String>>) -> Option<Seq<char>> {
    match o {
        Some(s) => Some(s.spec_inner()@),
        None => None,
    }
}

/// How cache settings relate to the table they were read from.
pub open spec fn redis_matches(es: Seq<(Seq<char>, Doc)>, s: RedisSettings) -> bool {
    &&& doc_port_field(es, "port"@) == Some(s.port)
    &&& doc_str_field(es, "host"@) == Some(s.host@)
    &&& doc_opt_str_field(es, "username"@) == Some(opt_str_view(s.username))
    &&& doc_opt_str_field(es, "password"@) == Some(opt_secret_view(s.password))
}

/// Whether a table satisfies the application settings schema.
pub open spec fn app_section_ok(es: Seq<(Seq<char>, Doc)>) -> bool {
    &&& doc_str_field(es, "host"@) is Some
    &&& doc_port_field(es, "port"@) is Some
    &&& doc_u64_field(es, "visit_duration"@) is Some
}

/// How application settings relate to the table they were read from.
pub open spec fn app_matches(es: Seq<(Seq<char>, Doc)>, s: ApplicationSettings) -> bool {
    &&& doc_str_field(es, "host"@) == Some(s.host@)
    &&& doc_port_field(es, "port"@) == Some(s.port)
    &&& doc_u64_field(es, "visit_duration"@) == Some(s.visit_duration)
}

/// Whether a merged document satisfies the whole settings schema.
pub open spec fn settings_ok(d: Doc) -> bool {
    match (section(d, "postgres"@), section(d, "redis"@), section(d, "application"@)) {
        (Some(p), Some(r), Some(a)) => pg_section_ok(p) && redis_section_ok(r) && app_section_ok(
            a,
        ),
        _ => false,
    }
}

/// How a resolved settings value relates to the merged document it was read
/// from.
pub open spec fn settings_matches(d: Doc, s: Settings) -> bool {
    match (section(d, "postgres"@), section(d, "redis"@), section(d, "application"@)) {
        (Some(p), Some(r), Some(a)) => pg_matches(p, s.postgres) && redis_matches(r, s.redis)
            && app_matches(a, s.application),
        _ => false,
    }
}

/// The string under key `k`, cloned out of the table.
fn field_string(es: &Vec<(String, Value)>, k: &str) -> (r: Option<String>)
    ensures
        match r {
            Some(s) => doc_str_field(entries_view(es@), k@) == Some(s@),
            None => doc_str_field(entries_view(es@), k@) is None,
        },
{
    match table_get(es, k) {
        Some(v) => match v {
            Value::Str(s) => Some(s.clone()),
            _ => None,
        },
        None => None,
    }
}

/// The boolean under key `k`, with string coercion.
fn field_bool(es: &Vec<(String, Value)>, k: &str) -> (r: Option<bool>)
    ensures
        r == doc_bool_field(entries_view(es@), k@),
{
    match table_get(es, k) {
        Some(v) => match v {
            Value::Bool(b) => Some(*b),
            Value::Str(s) => {
                if str_eq(s.as_str(), "true") {
                    Some(true)
                } else if str_eq(s.as_str(), "false") {
                    Some(false)
                } else {
                    None
                }
            },
            _ => None,
        },
        None => None,
    }
}

/// The port under key `k`, with numeric-from-string coercion.
fn field_port(es: &Vec<(String, Value)>, k: &str) -> (r: Option<u16>)
    ensures
        r == doc_port_field(entries_view(es@), k@),
{
    match table_get(es, k) {
        Some(v) => match v {
            Value::Int(i) => {
                if 0 <= *i && *i <= 65535 {
                    Some(*i as u16)
                } else {
                    None
                }
            },
            Value::Str(s) => parse_u16(s.as_str()),
            _ => None,
        },
        None => None,
    }
}

/// The unsigned count under key `k`, with numeric-from-string coercion.
fn field_u64(es: &Vec<(String, Value)>, k: &str) -> (r: Option<u64>)
    ensures
        r == doc_u64_field(entries_view(es@), k@),
{
    match table_get(es, k) {
        Some(v) => match v {
            Value::Int(i) => {
                if 0 <= *i {
                    Some(*i as u64)
                } else {
                    None
                }
            },
            Value::Str(s) => parse_u64(s.as_str()),
            _ => None,
        },
        None => None,
    }
}

/// The optional string under key `k`: the outer `None` marks a value of the
/// wrong shape.
fn field_opt_string(es: &Vec<(String, Value)>, k: &str) -> (r: Option<Option<String>>)
    ensures
        match r {
            Some(Some(s)) => doc_opt_str_field(entries_view(es@), k@) == Some(Some(s@)),
            Some(None) => doc_opt_str_field(entries_view(es@), k@) == Some(None::<Seq<char>>),
            None => doc_opt_str_field(entries_view(es@), k@) is None,
        },
{
    match table_get(es, k) {
        Some(v) => match v {
            Value::Str(s) => Some(Some(s.clone())),
            _ => None,
        },
        None => Some(None),
    }
}

/// A deserialization error naming the offending field path.
fn deser_err(path: &str) -> (r: ConfigError)
    ensures
        r is Deserialize,
{
    ConfigError::Deserialize(path.to_owned())
}

/// Reads the database section out of its table.
fn postgres_from(es: &Vec<(String, Value)>) -> (r: Result<PostgresSettings, ConfigError>)
    ensures
        r is Ok <==> pg_section_ok(entries_view(es@)),
        r matches Ok(s) ==> pg_matches(entries_view(es@), s),
        r matches Err(e) ==> e is Deserialize,
{
    let username = match field_string(es, "username") {
        Some(s) => s,
        None => {
            return Err(deser_err("postgres.username"));
        },
    };
    let password = match field_string(es, "password") {
        Some(s) => Secret::new(s),
        None => {
            return Err(deser_err("postgres.password"));
        },
    };
    let port = match field_port(es, "port") {
        Some(p) => p,
        None => {
            return Err(deser_err("postgres.port"));
        },
    };
    let host = match field_string(es, "host") {
        Some(s) => s,
        None => {
            return Err(deser_err("postgres.host"));
        },
    };
    let database_name = match field_string(es, "database_name") {
        Some(s) => s,
        None => {
            return Err(deser_err("postgres.database_name"));
        },
    };
    let require_ssl = match field_bool(es, "require_ssl") {
        Some(b) => b,
        None => {
            return Err(deser_err("postgres.require_ssl"));
        },
    };
    Ok(PostgresSettings { username, password, port, host, database_name, require_ssl })
}

/// Reads the cache section out of its table.
fn redis_from(es: &Vec<(String, Value)>) -> (r: Result<RedisSettings, ConfigError>)
    ensures
        r is Ok <==> redis_section_ok(entries_view(es@)),
        r matches Ok(s) ==> redis_matches(entries_view(es@), s),
        r matches Err(e) ==> e is Deserialize,
{
    let port = match field_port(es, "port") {
        Some(p) => p,
        None => {
            return Err(deser_err("redis.port"));
        },
    };
    let host = match field_string(es, "host") {
        Some(s) => s,
        None => {
            return Err(deser_err("redis.host"));
        },
    };
    let username = match field_opt_string(es, "username") {
        Some(u) => u,
        None => {
            return Err(deser_err("redis.username"));
        },
    };
    let password = match field_opt_string(es, "password") {
        Some(Some(p)) => Some(Secret::new(p)),
        Some(None) => None,
        None => {
            return Err(deser_err("redis.password"));
        },
    };
    Ok(RedisSettings { port, host, username, password })
}

/// Reads the application section out of its table.
fn application_from(es: &Vec<(String, Value)>) -> (r: Result<ApplicationSettings, ConfigError>)
    ensures
        r is Ok <==> app_section_ok(entries_view(es@)),
        r matches Ok(s) ==> app_matches(entries_view(es@), s),
        r matches Err(e) ==> e is Deserialize,
{
    let host = match field_string(es, "host") {
        Some(s) => s,
        None => {
            return Err(deser_err("application.host"));
        },
    };
    let port = match field_port(es, "port") {
        Some(p) => p,
        None => {
            return Err(deser_err("application.port"));
        },
    };
    let visit_duration = match field_u64(es, "visit_duration") {
        Some(d) => d,
        None => {
            return Err(deser_err("application.visit_duration"));
        },
    };
    Ok(ApplicationSettings { host, port, visit_duration })
}

/// The table under key `k` of a document node.
fn get_section<'a>(doc: &'a Value, k: &str) -> (r: Option<&'a Vec<(String, Value)>>)
    ensures
        match r {
            Some(es) => section(doc@, k@) == Some(entries_view(es@)),
            None => section(doc@, k@) is None,
        },
{
    match doc {
        Value::Table(es) => match table_get(es, k) {
            Some(v) => match v {
                Value::Table(inner) => Some(inner),
                _ => None,
            },
            None => None,
        },
        _ => None,
    }
}

/// Reads a whole merged document into the typed settings schema, applying
/// numeric-from-string coercion to every port field; a missing section or
/// field, or one that fails coercion, is a deserialization error.
pub fn settings_from_document(doc: &Value) -> (r: Result<Settings, ConfigError>)
    ensures
        r is Ok <==> settings_ok(doc@),
        r matches Ok(s) ==> settings_matches(doc@, s),
        r matches Err(e) ==> e is Deserialize,
{
    let pg_es = match get_section(doc, "postgres") {
        Some(es) => es,
        None => {
            return Err(deser_err("postgres"));
        },
    };
    let redis_es = match get_section(doc, "redis") {
        Some(es) => es,
        None => {
            return Err(deser_err("redis"));
        },
    };
    let app_es = match get_section(doc, "application") {
        Some(es) => es,
        None => {
            return Err(deser_err("application"));
        },
    };
    let postgres = match postgres_from(pg_es) {
        Ok(p) => p,
        Err(e) => {
            return Err(e);
        },
    };
    let redis = match redis_from(redis_es) {
        Ok(c) => c,
        Err(e) => {
            return Err(e);
        },
    };
    let application = match application_from(app_es) {
        Ok(a) => a,
        Err(e) => {
            return Err(e);
        },
    };
    Ok(Settings { postgres, redis, application })
}

/// The TLS demand of a database connection: required, or opportunistic.
#[derive(Clone, Copy, PartialEq, Eq, Structural, Debug)]
pub enum SslMode {
    Require,
    Prefer,
}

/// A ready-to-use database connection descriptor: no network activity, a
/// pure record of what to connect to.
pub struct PgConnectionDescriptor {
    pub username: String,
    pub password: String,
    pub port: u16,
    pub host: String,
    pub ssl_mode: SslMode,
    pub database_name: Option<String>,
}

/// A ready-to-use cache connection descriptor.
pub struct RedisConnectionDescriptor {
    pub host: String,
    pub port: u16,
    /// The logical database index; always zero.
    pub db: i64,
    pub username: Option<String>,
    pub password: Option<String>,
}

impl PostgresSettings {
    /// A descriptor for connecting to the database server without naming a
    /// database: the TLS mode is `Require` exactly when `require_ssl` is
    /// set, and `Prefer` (opportunistic, never disabled) otherwise.
    pub fn without_db(&self) -> (r: PgConnectionDescriptor)
        ensures
            r.username@ == self.username@,
            r.password@ == self.password.spec_inner()@,
            r.port == self.port,
            r.host@ == self.host@,
            r.ssl_mode == (if self.require_ssl {
                SslMode::Require
            } else {
                SslMode::Prefer
            }),
            r.database_name is None,
    {
        let ssl_mode = if self.require_ssl {
            SslMode::Require
        } else {
            SslMode::Prefer
        };
        PgConnectionDescriptor {
            username: self.username.clone(),
            password: self.password.expose_secret().clone(),
            port: self.port,
            host: self.host.clone(),
            ssl_mode,
            database_name: None,
        }
    }

    /// The same descriptor as [`Self::without_db`], with the target
    /// database named.
    pub fn with_db(&self) -> (r: PgConnectionDescriptor)
        ensures
            r.username@ == self.username@,
            r.password@ == self.password.spec_inner()@,
            r.port == self.port,
            r.host@ == self.host@,
            r.ssl_mode == (if self.require_ssl {
                SslMode::Require
            } else {
                SslMode::Prefer
            }),
            r.database_name matches Some(d) && d@ == self.database_name@,
    {
        let base = self.without_db();
        PgConnectionDescriptor { database_name: Some(self.database_name.clone()), ..base }
    }
}

impl RedisSettings {
    /// A descriptor for the cache connection: the fixed logical database
    /// index zero, and the optional credentials carried through as they
    /// are.
    pub fn with_db(&self) -> (r: RedisConnectionDescriptor)
        ensures
            r.host@ == self.host@,
            r.port == self.port,
            r.db == 0,
            opt_str_view(r.username) == opt_str_view(self.username),
            opt_str_view(r.password) == opt_secret_view(self.password),
    {
        let username = match &self.username {
            Some(u) => Some(u.clone()),
            None => None,
        };
        let password = match &self.password {
            Some(p) => Some(p.expose_secret().clone()),
            None => None,
        };
        RedisConnectionDescriptor { host: self.host.clone(), port: self.port, db: 0, username, password }
    }
}

} // verus!
