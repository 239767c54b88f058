//! Responses that send the client elsewhere.

use http::header::{HeaderMap, HeaderValue};
use vstd::multiset::Multiset;
use vstd::prelude::*;
use vstd::string::StringSliceAdditionalSpecFns;
use vstd::utf8::encode_utf8;
use crate::headers::{append_header, header_pairs, new_headers};
use crate::reply::appended;

verus! {

/// A response that redirects to a location.
#[derive(Debug, Clone)]
pub struct Redirect {
    status: u16,
    location: String,
}

/// The name of the header that gives the location.
pub open spec fn location_name() -> Seq<u8> {
    "location".spec_bytes()
}

impl Redirect {
    /// The status of the response.
    pub closed spec fn spec_status(&self) -> u16 {
        self.status
    }

    /// The location.
    pub closed spec fn spec_location(&self) -> Seq<char> {
        self.location@
    }

    /// A redirect to `location` with the status `status`.
    pub fn new(status: u16, location: String) -> (r: Redirect)
        ensures
            r.spec_status() == status,
            r.spec_location() == location@,
    {
        Redirect { status, location }
    }

    /// The status of the response and its headers: the `Location` header,
    /// where the location is a value that a header can hold.
    pub fn into_response(self) -> (r: (u16, HeaderMap<HeaderValue>))
        ensures
            r.0 == self.spec_status(),
            header_pairs(r.1) == appended(
                Multiset::empty(),
                location_name(),
                encode_utf8(self.spec_location()),
            ),
    {
        let mut headers = new_headers();
        let _ = append_header(&mut headers, "location".as_bytes(), self.location.as_str().as_bytes());
        (self.status, headers)
    }
}

/// A redirect with the status 301.
pub fn moved_permanently(location: String) -> (r: Redirect)
    ensures
        r.spec_status() == 301,
        r.spec_location() == location@,
{
    Redirect::new(301, location)
}

/// A redirect with the status 302.
pub fn found(location: String) -> (r: Redirect)
    ensures
        r.spec_status() == 302,
        r.spec_location() == location@,
{
    Redirect::new(302, location)
}

/// A redirect with the status 303.
pub fn see_other(location: String) -> (r: Redirect)
    ensures
        r.spec_status() == 303,
        r.spec_location() == location@,
{
    Redirect::new(303, location)
}

/// A redirect with the status 307.
pub fn temporary_redirect(location: String) -> (r: Redirect)
    ensures
        r.spec_status() == 307,
        r.spec_location() == location@,
{
    Redirect::new(307, location)
}

/// A redirect with the status 308.
pub fn permanent_redirect(location: String) -> (r: Redirect)
    ensures
        r.spec_status() == 308,
        r.spec_location() == location@,
{
    Redirect::new(308, location)
}

/// A redirect with the status 301.
pub fn to(location: String) -> (r: Redirect)
    ensures
        r.spec_status() == 301,
        r.spec_location() == location@,
{
    Redirect::new(301, location)
}

} // verus!
