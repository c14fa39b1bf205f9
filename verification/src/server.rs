//! The rules of server mode: what a request has to look like, and what is
//! sent back. Listening and routing belong to the program around the
//! library.

use vstd::prelude::*;

use crate::geocoders::optional_values;
use crate::geocoders::Geocoded;
use crate::text::str_eq;
use crate::text::views;

verus! {

/// The HTTP status of a successful request.
pub const STATUS_OK: u16 = 200;

/// The HTTP status of a request that is not as it has to be.
pub const STATUS_BAD_REQUEST: u16 = 400;

/// The HTTP status of a request on which the geocoder has failed.
pub const STATUS_INTERNAL_SERVER_ERROR: u16 = 500;

/// The greatest size of the body of a request, in bytes: room for about
/// 128 addresses of about 128 bytes each.
pub const BODY_LIMIT: usize = 16384;

/// An error message to send back as JSON on error.
#[derive(Debug, PartialEq, Eq)]
pub struct ErrorResponse {
    /// A human-readable error.
    pub message: String,
}

impl ErrorResponse {
    /// Construct an error response from the message of an error.
    pub fn new(message: String) -> (response: ErrorResponse)
        ensures
            response.message@ == message@,
    {
        ErrorResponse { message }
    }
}

/// What is wrong with the headers of a request.
#[derive(Debug, PartialEq, Eq)]
pub enum HeaderError {
    /// The header has another value than expected; this is the value found.
    Unexpected(String),
    /// The header is missing.
    Missing,
}

/// Whether the `Content-Type` of a request is `application/json`, which is
/// required so that other formats can be told apart later.
pub fn expect_json_content_type(content_type: Option<&str>) -> (r: Result<(), HeaderError>)
    ensures
        match content_type {
            Some(found) => if found@ == "application/json"@ {
                r is Ok
            } else {
                r matches Err(HeaderError::Unexpected(value)) && value@ == found@
            },
            None => r == Err::<(), HeaderError>(HeaderError::Missing),
        },
{
    match content_type {
        Some(found) => {
            if str_eq(found, "application/json") {
                Ok(())
            } else {
                Err(HeaderError::Unexpected(found.to_owned()))
            }
        },
        None => Err(HeaderError::Missing),
    }
}

/// The column names with the values of a geocoded address, one pair for
/// each column that has a value.
pub open spec fn named_values(column_names: Seq<Seq<char>>, values: Seq<Seq<char>>) -> Seq<
    (Seq<char>, Seq<char>),
> {
    Seq::new(
        if column_names.len() <= values.len() {
            column_names.len()
        } else {
            values.len()
        },
        |i: int| (column_names[i], values[i]),
    )
}

/// The names and values of a list of pairs.
pub open spec fn pair_views(pairs: Seq<(String, String)>) -> Seq<(Seq<char>, Seq<char>)> {
    Seq::new(pairs.len(), |i: int| (pairs[i].0@, pairs[i].1@))
}

/// The values of a geocoded address by column name, in the order of the
/// columns.
pub fn hash_from_geocoded(column_names: &[String], geocoded: &Geocoded) -> (pairs: Vec<
    (String, String),
>)
    ensures
        pair_views(pairs@) == named_values(views(column_names@), geocoded@),
{
    let n = if column_names.len() <= geocoded.column_values.len() {
        column_names.len()
    } else {
        geocoded.column_values.len()
    };
    let mut pairs: Vec<(String, String)> = Vec::new();
    let mut i: usize = 0;
    while i < n
        invariant
            i <= n,
            n <= column_names@.len(),
            n <= geocoded.column_values@.len(),
            pairs@.len() == i,
            forall|k: int|
                0 <= k < i ==> (#[trigger] pairs@[k]).0@ == column_names@[k]@ && pairs@[k].1@
                    == geocoded.column_values@[k]@,
        decreases n - i,
    {
        pairs.push((column_names[i].clone(), geocoded.column_values[i].clone()));
        i += 1;
    }
    assert(pair_views(pairs@) =~= named_values(views(column_names@), geocoded@));
    pairs
}

/// The results of a request as they are sent back: one entry for each
/// address in order, nothing where no match was found, else the values of
/// the geocoded address by column name.
pub fn geocode_response(column_names: &[String], geocoded: &Vec<Option<Geocoded>>) -> (results:
    Vec<Option<Vec<(String, String)>>>)
    ensures
        results@.len() == geocoded@.len(),
        forall|i: int|
            0 <= i < results@.len() ==> match optional_values(geocoded@[i]) {
                Some(values) => (#[trigger] results@[i]) matches Some(pairs) && pair_views(pairs@)
                    == named_values(views(column_names@), values),
                None => results@[i] is None,
            },
{
    let mut results: Vec<Option<Vec<(String, String)>>> = Vec::new();
    let mut i: usize = 0;
    while i < geocoded.len()
        invariant
            i <= geocoded.len(),
            results@.len() == i,
            forall|k: int|
                0 <= k < i ==> match optional_values(geocoded@[k]) {
                    Some(values) => (#[trigger] results@[k]) matches Some(pairs) && pair_views(
                        pairs@,
                    ) == named_values(views(column_names@), values),
                    None => results@[k] is None,
                },
        decreases geocoded.len() - i,
    {
        match &geocoded[i] {
            Some(g) => {
                results.push(Some(hash_from_geocoded(column_names, g)));
            },
            None => {
                results.push(None);
            },
        }
        i += 1;
    }
    results
}

/// How a request has ended.
#[derive(Debug, Clone, Copy, PartialEq, Eq, Structural)]
pub enum Outcome {
    /// The addresses were geocoded.
    Geocoded,
    /// The request was not as it has to be.
    BadRequest,
    /// The geocoder has failed.
    GeocoderFailed,
}

/// The HTTP status that a request is answered with.
pub fn status_for(outcome: Outcome) -> (status: u16)
    ensures
        status == match outcome {
            Outcome::Geocoded => STATUS_OK,
            Outcome::BadRequest => STATUS_BAD_REQUEST,
            Outcome::GeocoderFailed => STATUS_INTERNAL_SERVER_ERROR,
        },
{
    match outcome {
        Outcome::Geocoded => STATUS_OK,
        Outcome::BadRequest => STATUS_BAD_REQUEST,
        Outcome::GeocoderFailed => STATUS_INTERNAL_SERVER_ERROR,
    }
}

} // verus!
