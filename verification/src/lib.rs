//! Geospatial processing behind a URL: a path says which dataset is asked for, which of its
//! features, and what is to be done with them, and becomes the SQL that answers it.

use std::sync::Arc;
use vstd::prelude::*;

use crate::auth::{auth_message, auth_of, Auth, AuthError};
use crate::backend::Backend;
use crate::dataset::{resolve_message, DatasetRoot, ResolveError};
use crate::grammar::Grammar;
use crate::sql::is_duckdb;
use crate::text::{begins, begins_with, joined, same, trim, trimmed};

pub mod answers;
pub mod ast;
pub mod auth;
pub mod backend;
pub mod courses;
pub mod dataset;
pub mod encodings;
pub mod filters;
pub mod formats;
pub mod grammar;
pub mod handler;
pub mod meaning;
pub mod parexp;
pub mod process;
pub mod promises;
pub mod query;
pub mod registry;
pub mod render;
pub mod routes;
pub mod sea;
pub mod spelling;
pub mod sql;
pub mod text;
pub mod url;
pub mod words;

verus! {

/// How many chunks of an answer may wait to be sent.
pub const CHANNEL_DEPTH: usize = 4;

/// Why a request is not answered: a status and a message.
#[derive(Debug, Clone, PartialEq, Eq)]
pub struct Fault {
    pub status: u16,
    pub message: String,
}

impl Fault {
    /// A fault with a status.
    pub fn new(status: u16, message: String) -> (r: Fault)
        ensures
            r == (Fault { status, message }),
    {
        Fault { status, message }
    }

    /// A fault of the request.
    pub fn bad_request(message: String) -> (r: Fault)
        ensures
            r == (Fault { status: 400, message }),
    {
        Fault { status: 400, message }
    }

    /// A fault of what the request asks for.
    pub fn unprocessable(message: String) -> (r: Fault)
        ensures
            r == (Fault { status: 422, message }),
    {
        Fault { status: 422, message }
    }
}

/// A setting is switched on.
pub open spec fn is_enabled(value: Seq<char>) -> bool {
    trimmed(value) == "true"@ || trimmed(value) == "1"@
}

/// Whether a setting is switched on.
pub fn enabled(value: &str) -> (r: bool)
    ensures
        r == is_enabled(value@),
{
    let value = trim(value);
    same(value.as_str(), "true") || same(value.as_str(), "1")
}

/// How the server runs.
#[derive(Debug, Clone, PartialEq, Eq)]
pub struct Config {
    pub bind: String,
    pub data_root: String,
    pub key: Option<String>,
    pub allow_insecure: bool,
}

impl Config {
    /// How the server runs, from the settings that are there. A key that is blank is none.
    pub fn from_settings(
        bind: Option<String>,
        data_root: Option<String>,
        key: Option<String>,
        allow_insecure: Option<String>,
    ) -> (r: Config)
        ensures
            r.bind@ == match bind {
                Some(bind) => bind@,
                None => "0.0.0.0:5757"@,
            },
            r.data_root@ == match data_root {
                Some(root) => root@,
                None => "./data"@,
            },
            match key {
                Some(key) if trimmed(key@).len() > 0 => r.key == Some(key),
                _ => r.key is None,
            },
            r.allow_insecure == (allow_insecure matches Some(value) && is_enabled(value@)),
    {
        Config {
            bind: match bind {
                Some(bind) => bind,
                None => "0.0.0.0:5757".to_owned(),
            },
            data_root: match data_root {
                Some(root) => root,
                None => "./data".to_owned(),
            },
            key: match key {
                Some(key) => {
                    if trim(key.as_str()).as_str().is_empty() {
                        None
                    } else {
                        Some(key)
                    }
                },
                None => None,
            },
            allow_insecure: match allow_insecure {
                Some(value) => enabled(value.as_str()),
                None => false,
            },
        }
    }
}

/// The status and the message that a dataset that cannot be found is answered with. Where the
/// directory of datasets cannot be used, the message does not show where it is.
pub fn resolve_error(e: &ResolveError) -> (r: Fault)
    ensures
        r.status == match e {
            ResolveError::NotFound(_) | ResolveError::PathNotFound { .. } => 404u16,
            ResolveError::EmptyArchive(_) => 422u16,
            ResolveError::NotAnArchive(_) => 400u16,
            ResolveError::UnreadableArchive(_) | ResolveError::InvalidRoot(_) => 500u16,
        },
        r.message@ == match e {
            ResolveError::InvalidRoot(_) => "data root is unusable"@,
            _ => resolve_message(e@),
        },
{
    match e {
        ResolveError::NotFound(_) | ResolveError::PathNotFound { .. } => Fault {
            status: 404,
            message: e.message(),
        },
        ResolveError::EmptyArchive(_) => Fault { status: 422, message: e.message() },
        ResolveError::NotAnArchive(_) => Fault { status: 400, message: e.message() },
        ResolveError::UnreadableArchive(_) => Fault { status: 500, message: e.message() },
        ResolveError::InvalidRoot(_) => Fault {
            status: 500,
            message: "data root is unusable".to_owned(),
        },
    }
}

/// Why a path cannot be signed.
#[derive(Debug, PartialEq, Eq)]
pub enum SignError {
    /// It does not begin with a slash.
    NotAbsolute(String),
    /// There is no key.
    NoKey,
    /// The key cannot be used.
    Key(AuthError),
}

impl SignError {
    /// What went wrong, in words.
    pub fn message(&self) -> (r: String)
        ensures
            r@ == match self {
                SignError::NotAbsolute(path) => "path must start with '/', got: "@ + path@,
                SignError::NoKey => "DUCKXY_KEY is required to sign"@,
                SignError::Key(e) => auth_message(*e),
            },
    {
        match self {
            SignError::NotAbsolute(path) => joined(
                "path must start with '/', got: ",
                path.as_str(),
            ),
            SignError::NoKey => "DUCKXY_KEY is required to sign".to_owned(),
            SignError::Key(e) => e.message().to_owned(),
        }
    }
}

/// A path with its signature before it.
pub fn sign_path(config: &Config, path: &str) -> (r: Result<String, SignError>)
    ensures
        match config.key {
            _ if !begins(path@, "/"@) => r matches Err(SignError::NotAbsolute(p)) && p@ == path@,
            None => r matches Err(SignError::NoKey),
            Some(key) => match (r, auth_of(Some(key@), false)) {
                (Ok(url), Ok(auth)) => auth.signature(path@) is Some && url@ == "/"@
                    + auth.signature(path@)->0 + path@,
                (Err(SignError::Key(e)), Err(want)) => e == want,
                _ => false,
            },
        },
{
    if !begins_with(path, "/") {
        return Err(SignError::NotAbsolute(path.to_owned()));
    }
    let key = match &config.key {
        Some(key) => key,
        None => {
            return Err(SignError::NoKey);
        },
    };
    let auth = match Auth::new(Some(key.as_str()), false) {
        Ok(auth) => auth,
        Err(e) => {
            return Err(SignError::Key(e));
        },
    };
    match auth.sign(path) {
        Some(signature) => {
            let signed = joined("/", signature.as_str());
            Ok(joined(signed.as_str(), path))
        },
        None => Err(SignError::NoKey),
    }
}

/// What every request is answered from.
pub struct AppState {
    pub root: DatasetRoot,
    pub auth: Auth,
    pub grammar: Arc<Grammar>,
    pub backend: Arc<Backend>,
}

impl AppState {
    /// Requests of a grammar on the datasets of a directory, answered by DuckDB.
    pub fn new(root: DatasetRoot, auth: Auth, grammar: Grammar) -> (r: AppState)
        ensures
            r.root == root,
            r.auth == auth,
            *r.grammar == grammar,
            is_duckdb(*r.backend),
    {
        AppState {
            root,
            auth,
            grammar: Arc::new(grammar),
            backend: Arc::new(Backend::default()),
        }
    }

    /// The same, answered by another database.
    pub fn with_backend(self, backend: Backend) -> (r: AppState)
        ensures
            r.root == self.root,
            r.auth == self.auth,
            r.grammar == self.grammar,
            *r.backend == backend,
    {
        AppState {
            root: self.root,
            auth: self.auth,
            grammar: self.grammar,
            backend: Arc::new(backend),
        }
    }
}

} // verus!
