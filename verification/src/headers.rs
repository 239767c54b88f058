//! Response headers: the header map of the `http` crate behind contracts.

use http::header::{HeaderMap, HeaderName, HeaderValue};
use vstd::multiset::Multiset;
use vstd::prelude::*;

verus! {

/// The header values of the `http` crate.  Nothing is known of a value.
#[verifier::external_type_specification]
#[verifier::external_body]
pub struct ExHeaderValue(http::header::HeaderValue);

/// The header map of the `http` crate.  What a map holds is
/// `header_pairs`.
#[verifier::external_type_specification]
#[verifier::external_body]
#[verifier::reject_recursive_types(T)]
pub struct ExHeaderMap<T>(http::header::HeaderMap<T>);

/// One header: the name in its normal form, and the value.
pub type Pair = (Seq<u8>, Seq<u8>);

/// The headers that a map holds, each name once for each of its values.
pub uninterp spec fn header_pairs(map: HeaderMap<HeaderValue>) -> Multiset<Pair>;

/// The normal form of a header name as `HeaderName::from_bytes` gives it,
/// or `None` where it refuses the name.
pub uninterp spec fn header_name(raw: Seq<u8>) -> Option<Seq<u8>>;

/// The number of headers up to which a map takes one more for certain.
pub const MAX_HEADERS: usize = 32767;

/// Whether `HeaderValue::from_bytes` accepts the bytes: each is a tab, or
/// is at least 32 and not 127.
pub open spec fn valid_header_value(v: Seq<u8>) -> bool {
    forall|i: int| 0 <= i < v.len() ==> ((#[trigger] v[i]) >= 32 && v[i] != 127) || v[i] == 9
}

/// A new map, by `HeaderMap::new`: it holds nothing.
#[verifier::external_body]
pub(crate) fn new_headers() -> (map: HeaderMap<HeaderValue>)
    ensures
        header_pairs(map) == Multiset::<Pair>::empty(),
{
    HeaderMap::new()
}

/// The number of headers in a map, by `HeaderMap::len`, which counts every
/// value.
#[verifier::external_body]
pub(crate) fn header_count(map: &HeaderMap<HeaderValue>) -> (n: usize)
    ensures
        n == header_pairs(*map).len(),
{
    map.len()
}

/// Adds a header to a map, by `HeaderMap::append`, which keeps the values
/// that the name has already.  The name goes through
/// `HeaderName::from_bytes` and the value through
/// `HeaderValue::from_bytes`; where one of them is refused nothing is added
/// and `false` is returned.  `HeaderMap::append` panics on a map that holds
/// 32768 names, so a map with more than `MAX_HEADERS` headers is left out.
#[verifier::external_body]
pub(crate) fn append_header(map: &mut HeaderMap<HeaderValue>, name: &[u8], value: &[u8]) -> (ok:
    bool)
    requires
        header_pairs(*old(map)).len() < MAX_HEADERS,
    ensures
        ok == (header_name(name@).is_some() && valid_header_value(value@)),
        ok ==> header_pairs(*final(map)) == header_pairs(*old(map)).insert(
            (header_name(name@)->Some_0, value@),
        ),
        !ok ==> header_pairs(*final(map)) == header_pairs(*old(map)),
{
    match (HeaderName::from_bytes(name), HeaderValue::from_bytes(value)) {
        (Ok(n), Ok(v)) => {
            map.append(n, v);
            true
        },
        _ => false,
    }
}

/// Whether a map holds a header of this name, by `HeaderMap::contains_key`.
/// A name that `HeaderName::from_bytes` refuses is in no map.
#[verifier::external_body]
pub(crate) fn contains_header(map: &HeaderMap<HeaderValue>, name: &[u8]) -> (r: bool)
    ensures
        r == match header_name(name@) {
            Some(n) => exists|v: Seq<u8>| header_pairs(*map).count((n, v)) > 0,
            None => false,
        },
{
    match HeaderName::from_bytes(name) {
        Ok(n) => map.contains_key(n),
        Err(_) => false,
    }
}

/// The headers of a list as mathematical values.
pub open spec fn pairs_of(list: Seq<(Vec<u8>, Vec<u8>)>) -> Seq<Pair> {
    Seq::new(list.len(), |i: int| (list[i].0@, list[i].1@))
}

/// The headers of a map as a list, by `HeaderMap::iter`, which yields each
/// name once for each of its values, in an order of its own.
#[verifier::external_body]
pub(crate) fn header_list(map: &HeaderMap<HeaderValue>) -> (list: Vec<(Vec<u8>, Vec<u8>)>)
    ensures
        pairs_of(list@).to_multiset() == header_pairs(*map),
{
    map.iter().map(|(k, v)| (k.as_str().as_bytes().to_vec(), v.as_bytes().to_vec())).collect()
}

} // verus!
