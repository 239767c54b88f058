//! The media type of a request body, parsed once by the `mime` crate.

use mime::Mime;
use vstd::prelude::*;
use vstd::utf8::decode_utf8;
use crate::cookies::{header_text, is_text};
use crate::error::Failure;

verus! {

/// The media types of the `mime` crate.  Nothing is known of a value.
#[verifier::external_type_specification]
#[verifier::external_body]
pub struct ExMime(mime::Mime);

/// The text of the media type that the `mime` crate reads from a text, as
/// `Mime::as_ref` gives it, or `None` where it reads none.
pub uninterp spec fn mime_source(text: Seq<char>) -> Option<Seq<char>>;

/// The media type that a text names, by the `FromStr` of `Mime`, together
/// with its text, by `Mime::as_ref`.
#[verifier::external_body]
pub(crate) fn parse_mime(text: &str) -> (r: Option<(Mime, String)>)
    ensures
        match mime_source(text@) {
            Some(s) => r.is_some() && r->Some_0.1@ == s,
            None => r.is_none(),
        },
{
    text.parse::<Mime>().ok().map(
        |m|
            {
                let s = m.as_ref().to_owned();
                (m, s)
            },
    )
}

/// Whether the value of a `Content-Type` header names a media type.
pub open spec fn names_media_type(raw: Seq<u8>) -> bool {
    is_text(raw) && mime_source(decode_utf8(raw)).is_some()
}

/// The media type of a request, looked up at most once.
pub struct ContentType {
    cached: Option<Option<(Mime, String)>>,
}

impl ContentType {
    /// What has been found: nothing yet, no header, or a media type.
    pub closed spec fn cached(&self) -> Option<Option<Mime>> {
        match self.cached {
            Some(Some(found)) => Some(Some(found.0)),
            Some(None) => Some(None),
            None => None,
        }
    }

    /// The text of what has been found.
    pub closed spec fn cached_text(&self) -> Option<Option<Seq<char>>> {
        match self.cached {
            Some(Some(found)) => Some(Some(found.1@)),
            Some(None) => Some(None),
            None => None,
        }
    }

    /// A media type that has not been looked up.
    pub fn new() -> (c: ContentType)
        ensures
            c.cached().is_none(),
            c.cached_text().is_none(),
    {
        ContentType { cached: None }
    }

    /// Keeps what the value of the header was read as: a media type is
    /// kept with its text, and a value that names none is a bad request and
    /// leaves the header to be looked at again.
    pub fn remember(&mut self, parsed: Option<(Mime, String)>) -> (r: Result<(), Failure>)
        ensures
            match parsed {
                Some(m) => r.is_ok() && final(self).cached() == Some(Some(m.0)) && final(self).cached_text() == Some(Some(m.1@)),
                None => r == Err::<(), Failure>(Failure::BadRequest) && final(self).cached() == old(self).cached() && final(self).cached_text() == old(self).cached_text(),
            },
    {
        match parsed {
            Some(m) => {
                self.cached = Some(Some(m));
                Ok(())
            },
            None => Err(Failure::BadRequest),
        }
    }

    /// The text of the media type that has been found.
    pub fn media_type(&self) -> (r: Option<&str>)
        ensures
            match self.cached_text() {
                Some(Some(t)) => r.is_some() && r->Some_0@ == t,
                _ => r.is_none(),
            },
    {
        match &self.cached {
            Some(Some(found)) => Some(found.1.as_str()),
            _ => None,
        }
    }

    /// Parses the value of the header `Content-Type` and keeps the result.
    /// A value that names no media type is a bad request, and is looked at
    /// again the next time.
    pub fn content_type(&mut self, header: Option<&[u8]>) -> (r: Result<Option<&Mime>, Failure>)
        ensures
            old(self).cached().is_some() ==> final(self).cached() == old(self).cached() && final(self).cached_text() == old(self).cached_text(),
            old(self).cached().is_none() ==> match header {
                None => final(self).cached() == Some(None::<Mime>) && final(self).cached_text()
                    == Some(None::<Seq<char>>),
                Some(raw) => if names_media_type(raw@) {
                    final(self).cached().is_some() && final(self).cached()->Some_0.is_some()
                        && final(self).cached_text() == Some(mime_source(decode_utf8(raw@)))
                } else {
                    final(self).cached().is_none() && final(self).cached_text().is_none()
                },
            },
            match final(self).cached() {
                Some(found) => r.is_ok() && match found {
                    Some(m) => r->Ok_0 == Some(&m),
                    None => r->Ok_0.is_none(),
                },
                None => r == Err::<Option<&Mime>, Failure>(Failure::BadRequest),
            },
    {
        if self.cached.is_none() {
            match header {
                None => {
                    self.cached = Some(None);
                },
                Some(raw) => {
                    let parsed = match header_text(raw) {
                        Some(text) => parse_mime(text),
                        None => None,
                    };
                    match self.remember(parsed) {
                        Ok(()) => {},
                        Err(e) => {
                            return Err(e);
                        },
                    }
                },
            }
        }
        match &self.cached {
            Some(Some(found)) => Ok(Some(&found.0)),
            Some(None) => Ok(None),
            None => Err(Failure::BadRequest),
        }
    }
}

} // verus!
