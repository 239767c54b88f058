//! Extractors for parsing the query string.

use vstd::prelude::*;

verus! {

/// Why the query of a request could not be extracted.
#[derive(Clone, Copy, Debug, PartialEq, Eq, Structural)]
pub enum ExtractQueryError {
    /// The request has no query string.
    MissingQuery,
    /// The query string cannot be read.
    InvalidQuery,
}

/// The pairs of names and values that `serde_urlencoded` reads from a
/// query string, or `None` where it refuses the string.
pub uninterp spec fn query_pairs(text: Seq<char>) -> Option<Seq<(Seq<char>, Seq<char>)>>;

/// The text of each pair of a list.
pub open spec fn pairs_text(list: Seq<(String, String)>) -> Seq<(Seq<char>, Seq<char>)> {
    Seq::new(list.len(), |i: int| (list[i].0@, list[i].1@))
}

/// The pairs of a query string, by `serde_urlencoded::from_str`, which
/// decodes the percent signs and the plus signs of names and values.
#[verifier::external_body]
pub(crate) fn parse_query(text: &str) -> (r: Option<Vec<(String, String)>>)
    ensures
        match query_pairs(text@) {
            Some(pairs) => r.is_some() && pairs_text(r->Some_0@) == pairs,
            None => r.is_none(),
        },
{
    serde_urlencoded::from_str::<Vec<(String, String)>>(text).ok()
}

/// The outcome of extracting a query that must be there: `parsed` is what
/// the query string was read as, if the request has one.
pub fn query_from<T>(parsed: Option<Option<T>>) -> (r: Result<T, ExtractQueryError>)
    ensures
        r == match parsed {
            None => Err::<T, ExtractQueryError>(ExtractQueryError::MissingQuery),
            Some(None) => Err::<T, ExtractQueryError>(ExtractQueryError::InvalidQuery),
            Some(Some(v)) => Ok::<T, ExtractQueryError>(v),
        },
{
    match parsed {
        None => Err(ExtractQueryError::MissingQuery),
        Some(None) => Err(ExtractQueryError::InvalidQuery),
        Some(Some(v)) => Ok(v),
    }
}

/// The outcome of extracting a query that may be missing.
pub fn optional_from<T>(parsed: Option<Option<T>>) -> (r: Result<Option<T>, ExtractQueryError>)
    ensures
        r == match parsed {
            None => Ok::<Option<T>, ExtractQueryError>(None),
            Some(None) => Err::<Option<T>, ExtractQueryError>(ExtractQueryError::InvalidQuery),
            Some(Some(v)) => Ok::<Option<T>, ExtractQueryError>(Some(v)),
        },
{
    match parsed {
        None => Ok(None),
        Some(None) => Err(ExtractQueryError::InvalidQuery),
        Some(Some(v)) => Ok(Some(v)),
    }
}

/// What the query string of a request is read as, if it has one.
fn read_query(query_str: Option<&str>) -> (r: Option<Option<Vec<(String, String)>>>)
    ensures
        match query_str {
            None => r.is_none(),
            Some(text) => r.is_some() && match query_pairs(text@) {
                Some(pairs) => r->Some_0.is_some() && pairs_text(r->Some_0->Some_0@) == pairs,
                None => r->Some_0.is_none(),
            },
        },
{
    match query_str {
        Some(text) => Some(parse_query(text)),
        None => None,
    }
}

/// Extracts the pairs of the query string.  A request without a query
/// string and a query string that cannot be read are failures.
pub fn query(query_str: Option<&str>) -> (r: Result<Vec<(String, String)>, ExtractQueryError>)
    ensures
        match query_str {
            None => r is Err && r->Err_0 == ExtractQueryError::MissingQuery,
            Some(text) => match query_pairs(text@) {
                Some(pairs) => r is Ok && pairs_text(r->Ok_0@) == pairs,
                None => r is Err && r->Err_0 == ExtractQueryError::InvalidQuery,
            },
        },
{
    query_from(read_query(query_str))
}

/// Extracts the pairs of the query string if there is one.  A query string
/// that cannot be read is a failure.
pub fn optional(query_str: Option<&str>) -> (r: Result<
    Option<Vec<(String, String)>>,
    ExtractQueryError,
>)
    ensures
        match query_str {
            None => r is Ok && r->Ok_0.is_none(),
            Some(text) => match query_pairs(text@) {
                Some(pairs) => r is Ok && r->Ok_0.is_some() && pairs_text(r->Ok_0->Some_0@)
                    == pairs,
                None => r is Err && r->Err_0 == ExtractQueryError::InvalidQuery,
            },
        },
{
    optional_from(read_query(query_str))
}

/// Extracts the query string as it stands.
pub fn raw(query_str: Option<&str>) -> (r: Option<String>)
    ensures
        match query_str {
            Some(text) => r.is_some() && r->Some_0@ == text@,
            None => r.is_none(),
        },
{
    match query_str {
        Some(text) => Some(text.to_owned()),
        None => None,
    }
}

} // verus!
