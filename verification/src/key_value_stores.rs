//! Key/value stores used for caching, such as Redis or BigTable. Only what
//! is sent and what is made of the answers stands here; the requests
//! themselves are made by the program around the library.
//!
//! Stores are used through "pipelined" operations only, where many requests
//! go out at once, to keep network round trips few.

use vstd::prelude::*;

use crate::text::str_eq;

pub mod bigtable;
pub mod redis;

verus! {

/// The parts of a URL that say where a store is.
#[derive(Debug, PartialEq, Eq)]
pub struct UrlParts {
    /// The scheme, without the colon behind it.
    pub scheme: String,
    /// The host, if the URL has one.
    pub host: Option<String>,
    /// The segments of the path, if the URL has a path that begins with a
    /// slash.
    pub path_segments: Option<Vec<String>>,
}

/// The parts of a URL, as plain text.
pub struct UrlPartsText {
    pub scheme: Seq<char>,
    pub host: Option<Seq<char>>,
    pub path_segments: Option<Seq<Seq<char>>>,
}

impl View for UrlParts {
    type V = UrlPartsText;

    open spec fn view(&self) -> UrlPartsText {
        UrlPartsText {
            scheme: self.scheme@,
            host: crate::text::optional_text(self.host),
            path_segments: match self.path_segments {
                Some(segments) => Some(crate::text::views(segments@)),
                None => None,
            },
        }
    }
}

/// The parts of the URL that a text holds, if it holds one: what
/// `Url::parse` makes of it.
pub uninterp spec fn parsed_url(text: Seq<char>) -> Option<UrlPartsText>;

/// Parses a URL with the `url` crate (`Url::parse`) and hands out what
/// `Url::scheme`, `Url::host_str` and `Url::path_segments` return for it.
/// It is assumed that whether the text is a URL, and what its parts are,
/// depends on the text alone.
#[verifier::external_body]
fn parse_url(text: &str) -> (parts: Option<UrlParts>)
    ensures
        match parsed_url(text@) {
            Some(expected) => parts is Some && parts->0@ == expected,
            None => parts is None,
        },
{
    let url = url::Url::parse(text).ok()?;
    Some(
        UrlParts {
            scheme: url.scheme().to_owned(),
            host: url.host_str().map(|host| host.to_owned()),
            path_segments: url.path_segments().map(|s| s.map(|p| p.to_owned()).collect()),
        },
    )
}

/// What is wrong with the address of a store.
#[derive(Debug, PartialEq, Eq)]
pub enum StoreError {
    /// This is no URL.
    NotAUrl(String),
    /// No store is known for URLs with this scheme.
    UnknownScheme(String),
    /// A `bigtable://project/instance/table` URL was expected; this is the
    /// scheme of what was found.
    NotABigTableUrl(String),
}

/// The kinds of key/value store.
#[derive(Debug, Clone, Copy, PartialEq, Eq, Structural)]
pub enum StoreKind {
    /// A Redis server.
    Redis,
    /// A BigTable table.
    BigTable,
}

/// The kind of store that a URL scheme stands for.
pub open spec fn store_kind_of(scheme: Seq<char>) -> Option<StoreKind> {
    if scheme == "redis"@ {
        Some(StoreKind::Redis)
    } else if scheme == "bigtable"@ {
        Some(StoreKind::BigTable)
    } else {
        None
    }
}

/// The kind of store to connect to for a URL with the given scheme.
pub fn store_kind_for_scheme(scheme: &str) -> (r: Result<StoreKind, StoreError>)
    ensures
        match store_kind_of(scheme@) {
            Some(kind) => r == Ok::<StoreKind, StoreError>(kind),
            None => r matches Err(StoreError::UnknownScheme(found)) && found@ == scheme@,
        },
{
    if str_eq(scheme, "redis") {
        Ok(StoreKind::Redis)
    } else if str_eq(scheme, "bigtable") {
        Ok(StoreKind::BigTable)
    } else {
        Err(StoreError::UnknownScheme(scheme.to_owned()))
    }
}

/// The parts of the URL `url`; a text that is no URL is an error.
pub fn url_parts(url: &str) -> (r: Result<UrlParts, StoreError>)
    ensures
        match parsed_url(url@) {
            Some(expected) => r matches Ok(parts) && parts@ == expected,
            None => r matches Err(StoreError::NotAUrl(text)) && text@ == url@,
        },
{
    match parse_url(url) {
        Some(parts) => Ok(parts),
        None => Err(StoreError::NotAUrl(url.to_owned())),
    }
}

/// The kind of store to connect to for the URL `url`.
pub fn store_kind_for_url(url: &str) -> (r: Result<StoreKind, StoreError>)
    ensures
        match parsed_url(url@) {
            Some(parts) => match store_kind_of(parts.scheme) {
                Some(kind) => r == Ok::<StoreKind, StoreError>(kind),
                None => r matches Err(StoreError::UnknownScheme(found)) && found@ == parts.scheme,
            },
            None => r matches Err(StoreError::NotAUrl(text)) && text@ == url@,
        },
{
    match url_parts(url) {
        Ok(parts) => store_kind_for_scheme(parts.scheme.as_str()),
        Err(e) => Err(e),
    }
}

/// A series of "get" requests that are sent in a single batch. The answers
/// come in the order of the requests, one for each, nothing standing for a
/// value that the store does not have; a key asked for twice is answered
/// twice.
pub trait PipelinedGet {
    /// The prefix that stands before every key of this store.
    spec fn key_prefix_text(&self) -> Seq<char>;

    /// The keys that are asked for, as the store sees them, in order.
    spec fn keys(&self) -> Seq<Seq<char>>;

    /// Add a "get" request to the pipeline: the key is asked for behind the
    /// prefix of the store.
    fn add_get(&mut self, key: String)
        ensures
            final(self).key_prefix_text() == old(self).key_prefix_text(),
            final(self).keys() == old(self).keys().push(old(self).key_prefix_text() + key@),
    ;
}

/// A series of "set" requests that are sent in a single batch.
pub trait PipelinedSet {
    /// The prefix that stands before every key of this store.
    spec fn key_prefix_text(&self) -> Seq<char>;

    /// The keys and values that are written, as the store sees them, in
    /// order.
    spec fn entries(&self) -> Seq<(Seq<char>, Seq<u8>)>;

    /// Add a "set" request to the pipeline: the value is written under the
    /// key behind the prefix of the store.
    fn add_set(&mut self, key: String, value: Vec<u8>)
        ensures
            final(self).key_prefix_text() == old(self).key_prefix_text(),
            final(self).entries() == old(self).entries().push(
                (old(self).key_prefix_text() + key@, value@),
            ),
    ;
}

/// A key/value store, like Redis or BigTable.
pub trait KeyValueStore {
    /// The batches of "get" requests of this store.
    type Get: PipelinedGet;

    /// The batches of "set" requests of this store.
    type Set: PipelinedSet;

    /// The prefix that stands before every key of this store.
    spec fn key_prefix_text(&self) -> Seq<char>;

    /// Create a new "pipelined" get request.
    fn new_pipelined_get(&self) -> (get: Self::Get)
        ensures
            get.key_prefix_text() == self.key_prefix_text(),
            get.keys().len() == 0,
    ;

    /// Create a new "pipelined" set request.
    fn new_pipelined_set(&self) -> (set: Self::Set)
        ensures
            set.key_prefix_text() == self.key_prefix_text(),
            set.entries().len() == 0,
    ;

    /// The prefix to use for all keys.
    fn key_prefix(&self) -> (prefix: &str)
        ensures
            prefix@ == self.key_prefix_text(),
    ;

    /// Prepend `key_prefix` to `key`.
    fn prefix_key(&self, key: &mut String)
        ensures
            final(key)@ == self.key_prefix_text() + old(key)@,
    {
        let mut prefixed = String::new();
        prefixed.append(self.key_prefix());
        prefixed.append(key.as_str());
        *key = prefixed;
    }
}

/// `key` behind `prefix`.
pub fn prefixed_key(prefix: &str, key: &str) -> (prefixed: String)
    ensures
        prefixed@ == prefix@ + key@,
{
    let mut prefixed = String::new();
    prefixed.append(prefix);
    prefixed.append(key);
    prefixed
}

} // verus!
