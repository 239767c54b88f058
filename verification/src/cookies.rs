//! The cookies of a request: the jar of the `cookie` crate behind
//! contracts, filled on demand from the `Cookie` headers.

use cookie::{Cookie, CookieJar};
use vstd::prelude::*;
use vstd::string::{is_ascii, StrSliceExecFns, StringSliceAdditionalSpecFns};
use vstd::utf8::{decode_utf8, is_ascii_chars, valid_utf8};
use crate::date::TmFields;
use crate::error::Failure;

verus! {

/// The cookie jar of the `cookie` crate.  What a jar holds is
/// `jar_originals` and `jar_delta`.
#[verifier::external_type_specification]
#[verifier::external_body]
pub struct ExCookieJar(cookie::CookieJar);

/// The cookies that came with the request, each value under its name.
pub uninterp spec fn jar_originals(jar: CookieJar) -> Map<Seq<char>, Seq<char>>;

/// The changes to the jar since the request came: under the name of each
/// cookie that was added or removed, the text of the `Set-Cookie` header
/// that tells the client of it.
pub uninterp spec fn jar_delta(jar: CookieJar) -> Map<Seq<char>, Seq<char>>;

/// Whether every change to the jar can be printed: a cookie among them
/// that expires does so at a time whose day of the week and whose month
/// have names.
pub uninterp spec fn jar_printable(jar: CookieJar) -> bool;

/// The text of the `Set-Cookie` header of a cookie with this name and
/// value, and with this domain, path and time of expiry where it has them,
/// as `Cookie::encoded` prints it.
pub uninterp spec fn cookie_text(
    name: Seq<char>,
    value: Seq<char>,
    domain: Option<Seq<char>>,
    path: Option<Seq<char>>,
    expires: Option<TmFields>,
) -> Seq<char>;

/// The name and the value that `Cookie::parse_encoded` reads from a text,
/// or `None` where it refuses the text.
pub uninterp spec fn cookie_pair(text: Seq<char>) -> Option<(Seq<char>, Seq<char>)>;

/// The cookies of a request that brought none.
pub open spec fn no_cookies() -> Map<Seq<char>, Seq<char>> {
    Map::empty()
}

/// No changes to a jar.
pub open spec fn no_changes() -> Map<Seq<char>, Seq<char>> {
    Map::empty()
}

/// An empty jar, by `CookieJar::new`.
#[verifier::external_body]
pub(crate) fn new_jar() -> (jar: CookieJar)
    ensures
        jar_originals(jar) == no_cookies(),
        jar_delta(jar) == no_changes(),
        jar_printable(jar),
{
    CookieJar::new()
}

/// The name and the value of a cookie, by `Cookie::parse_encoded`, which
/// decodes the percent signs of both.
#[verifier::external_body]
pub(crate) fn parse_pair(text: &str) -> (r: Option<(String, String)>)
    ensures
        match cookie_pair(text@) {
            Some(p) => r.is_some() && r->Some_0.0@ == p.0 && r->Some_0.1@ == p.1,
            None => r.is_none(),
        },
{
    Cookie::parse_encoded(text).ok().map(|c| (c.name().to_owned(), c.value().to_owned()))
}

/// Puts a cookie that came with the request into the jar, by
/// `CookieJar::add_original`: it takes the place of the one of its name, and
/// is no change to the jar.
#[verifier::external_body]
pub(crate) fn add_original(jar: &mut CookieJar, name: String, value: String)
    ensures
        jar_originals(*final(jar)) == jar_originals(*old(jar)).insert(name@, value@),
        jar_delta(*final(jar)) == jar_delta(*old(jar)),
        jar_printable(*final(jar)) == jar_printable(*old(jar)),
{
    jar.add_original(Cookie::new(name, value))
}

/// A cookie that a handler sets.
#[derive(Debug)]
pub struct NewCookie {
    pub name: String,
    pub value: String,
    pub domain: Option<String>,
    pub path: Option<String>,
    /// The time of expiry.
    pub expires: Option<TmFields>,
}

/// The text of an optional string.
pub open spec fn text_of(s: Option<String>) -> Option<Seq<char>> {
    match s {
        Some(t) => Some(t@),
        None => None,
    }
}

impl NewCookie {
    /// Whether the cookie can be printed: if it expires, the day of the
    /// week and the month of the time have names.
    pub open spec fn printable(&self) -> bool {
        self.expires matches Some(t) ==> t.printable()
    }

    /// The text of the `Set-Cookie` header of the cookie.
    pub open spec fn text(&self) -> Seq<char> {
        cookie_text(self.name@, self.value@, text_of(self.domain), text_of(self.path), self.expires)
    }
}

/// Adds a cookie to the changes of the jar, by `CookieJar::add`: it takes
/// the place of the change of its name, and the cookies that came with the
/// request stay.  `Cookie::encoded` cannot print a time of expiry whose day
/// of the week or month has no name, so such a cookie is left out.
#[verifier::external_body]
pub(crate) fn add_cookie(jar: &mut CookieJar, c: NewCookie)
    requires
        c.printable(),
    ensures
        jar_originals(*final(jar)) == jar_originals(*old(jar)),
        jar_delta(*final(jar)) == jar_delta(*old(jar)).insert(
            c.name@,
            cookie_text(c.name@, c.value@, text_of(c.domain), text_of(c.path), c.expires),
        ),
        jar_printable(*old(jar)) ==> jar_printable(*final(jar)),
{
    let mut cookie = Cookie::new(c.name, c.value);
    if let Some(d) = c.domain { cookie.set_domain(d); }
    if let Some(p) = c.path { cookie.set_path(p); }
    if let Some(t) = c.expires {
        cookie.set_expires(time::Tm {
            tm_sec: t.tm_sec, tm_min: t.tm_min, tm_hour: t.tm_hour, tm_mday: t.tm_mday,
            tm_mon: t.tm_mon, tm_year: t.tm_year, tm_wday: t.tm_wday, tm_yday: t.tm_yday,
            tm_isdst: t.tm_isdst, tm_utcoff: t.tm_utcoff, tm_nsec: t.tm_nsec,
        });
    }
    jar.add(cookie)
}

/// Removes the cookie of this name from the jar, by `CookieJar::remove`.
/// Where the cookie came with the request, a change is made that tells the
/// client to drop it, with a time of expiry that the clock gives; else the
/// change of this name is dropped.  The cookies that came with the request
/// stay.
#[verifier::external_body]
pub(crate) fn remove_cookie(
    jar: &mut CookieJar,
    name: String,
    domain: Option<String>,
    path: Option<String>,
)
    ensures
        jar_originals(*final(jar)) == jar_originals(*old(jar)),
        jar_delta(*final(jar)).remove(name@) == jar_delta(*old(jar)).remove(name@),
        jar_delta(*final(jar)).contains_key(name@) == jar_originals(*old(jar)).contains_key(name@),
        jar_printable(*old(jar)) ==> jar_printable(*final(jar)),
{
    let mut cookie = Cookie::named(name);
    if let Some(d) = domain { cookie.set_domain(d); }
    if let Some(p) = path { cookie.set_path(p); }
    jar.remove(cookie)
}

/// The text of each name and of what stands under it.
pub open spec fn named_texts(list: Seq<(String, String)>) -> Seq<(Seq<char>, Seq<char>)> {
    Seq::new(list.len(), |i: int| (list[i].0@, list[i].1@))
}

/// Whether a list names every entry of a map once, with what stands under
/// the name.
pub open spec fn enumerates(
    list: Seq<(Seq<char>, Seq<char>)>,
    map: Map<Seq<char>, Seq<char>>,
) -> bool {
    &&& forall|i: int|
        0 <= i < list.len() ==> map.contains_key((#[trigger] list[i]).0) && map[list[i].0]
            == list[i].1
    &&& forall|i: int, j: int|
        0 <= i < j < list.len() ==> (#[trigger] list[i]).0 != (#[trigger] list[j]).0
    &&& forall|k: Seq<char>| #[trigger]
        map.contains_key(k) ==> exists|i: int| 0 <= i < list.len() && (#[trigger] list[i]).0 == k
}

/// The changes to the jar, by `CookieJar::delta`: each cookie once, with
/// its name and with the text that `Cookie::encoded` gives it.  The order
/// is that of the jar.  Printing panics on a time of expiry whose day of
/// the week or month has no name, so a jar with such a change is left out.
#[verifier::external_body]
pub(crate) fn delta_list(jar: &CookieJar) -> (list: Vec<(String, String)>)
    requires
        jar_printable(*jar),
    ensures
        enumerates(named_texts(list@), jar_delta(*jar)),
{
    jar.delta().map(|c| (c.name().to_owned(), c.encoded().to_string())).collect()
}

/// The text of a byte string, by `core::str::from_utf8`: it is there
/// exactly for valid UTF-8, and has the same bytes.
#[verifier::external_body]
pub(crate) fn str_from_utf8(raw: &[u8]) -> (r: Option<&str>)
    ensures
        r.is_some() == valid_utf8(raw@),
        r matches Some(s) ==> s.spec_bytes() == raw@,
{
    core::str::from_utf8(raw).ok()
}

/// Whether every byte is a visible ASCII character, a space or a tab.
pub open spec fn visible_ascii(raw: Seq<u8>) -> bool {
    forall|i: int| 0 <= i < raw.len() ==> (32 <= #[trigger] raw[i] < 127) || raw[i] == 9
}

/// Whether a header value can be read as text: it is visible ASCII.
pub open spec fn is_text(raw: Seq<u8>) -> bool {
    &&& visible_ascii(raw)
    &&& valid_utf8(raw)
    &&& is_ascii_chars(decode_utf8(raw))
}

/// The text of a header value, if it is visible ASCII.
pub fn header_text(raw: &[u8]) -> (r: Option<&str>)
    ensures
        match r {
            Some(s) => is_text(raw@) && s@ == decode_utf8(raw@) && s.spec_bytes() == raw@ && is_ascii(
                s,
            ),
            None => !is_text(raw@),
        },
{
    let mut i: usize = 0;
    while i < raw.len()
        invariant
            i <= raw@.len(),
            forall|j: int| 0 <= j < i ==> (32 <= #[trigger] raw@[j] < 127) || raw@[j] == 9,
        decreases raw@.len() - i,
    {
        let b = raw[i];
        if !((32 <= b && b < 127) || b == 9) {
            return None;
        }
        i = i + 1;
    }
    match str_from_utf8(raw) {
        Some(s) => {
            proof {
                vstd::utf8::encode_utf8_decode_utf8(s@);
            }
            if s.is_ascii() {
                Some(s)
            } else {
                None
            }
        },
        None => None,
    }
}

/// The end of the piece of a `Cookie` header that starts at `pos`: the
/// place of the next `;`, or the end of the text.
pub open spec fn piece_end(s: Seq<char>, pos: int) -> int
    decreases s.len() - pos,
{
    if pos < 0 || pos >= s.len() {
        s.len() as int
    } else if s[pos] as u8 == 0x3b {
        pos
    } else {
        piece_end(s, pos + 1)
    }
}

/// Whether a character is a space or a tab.
pub open spec fn is_blank(c: char) -> bool {
    c as u8 == 0x20 || c as u8 == 0x09
}

/// The first place in `a..b` that holds no blank, or `b`.
pub open spec fn skip_front(s: Seq<char>, a: int, b: int) -> int
    decreases b - a,
{
    if 0 <= a < b <= s.len() && is_blank(s[a]) {
        skip_front(s, a + 1, b)
    } else {
        a
    }
}

/// The place after the last one in `a..b` that holds no blank, or `a`.
pub open spec fn skip_back(s: Seq<char>, a: int, b: int) -> int
    decreases b - a,
{
    if 0 <= a < b <= s.len() && is_blank(s[b - 1]) {
        skip_back(s, a, b - 1)
    } else {
        b
    }
}

/// The piece `a..b` of `s` without the blanks around it.
pub open spec fn trimmed(s: Seq<char>, a: int, b: int) -> Seq<char> {
    let start = skip_front(s, a, b);
    s.subrange(start, skip_back(s, start, b))
}

/// The cookies of a jar after the pieces of the header text `s` from `pos`
/// on are read into it, and whether all of them were cookies.  The pieces
/// are separated by `;`; reading stops at the first that is no cookie.
pub open spec fn load_pieces(originals: Map<Seq<char>, Seq<char>>, s: Seq<char>, pos: int) -> (
    Map<Seq<char>, Seq<char>>,
    bool,
)
    decreases s.len() - pos,
{
    let e = piece_end(s, pos);
    if pos < 0 || pos > s.len() || e < pos || e > s.len() {
        (originals, true)
    } else {
        match cookie_pair(trimmed(s, pos, e)) {
            None => (originals, false),
            Some(p) => if e >= s.len() {
                (originals.insert(p.0, p.1), true)
            } else {
                load_pieces(originals.insert(p.0, p.1), s, e + 1)
            },
        }
    }
}

/// The cookies of a jar after the headers `headers[k..]` are read into it,
/// and whether all of them were text made of cookies.  Reading stops at the
/// first header that is not.
pub open spec fn load_headers(
    originals: Map<Seq<char>, Seq<char>>,
    headers: Seq<Vec<u8>>,
    k: int,
) -> (Map<Seq<char>, Seq<char>>, bool)
    decreases headers.len() - k,
{
    if k < 0 || k >= headers.len() {
        (originals, true)
    } else if !is_text(headers[k]@) {
        (originals, false)
    } else {
        let (next, ok) = load_pieces(originals, decode_utf8(headers[k]@), 0);
        if ok {
            load_headers(next, headers, k + 1)
        } else {
            (next, false)
        }
    }
}

/// Takes what a piece of a `Cookie` header was read as: a cookie goes into
/// the jar as one that came with the request, and what is no cookie is
/// reported.
pub fn keep_cookie(jar: &mut CookieJar, parsed: Option<(String, String)>) -> (ok: bool)
    ensures
        ok == parsed.is_some(),
        jar_delta(*final(jar)) == jar_delta(*old(jar)),
        jar_printable(*final(jar)) == jar_printable(*old(jar)),
        jar_originals(*final(jar)) == match parsed {
            Some(p) => jar_originals(*old(jar)).insert(p.0@, p.1@),
            None => jar_originals(*old(jar)),
        },
{
    match parsed {
        None => false,
        Some((name, value)) => {
            add_original(jar, name, value);
            true
        },
    }
}

/// Reads the cookies of one header text into the jar.
fn load_text(jar: &mut CookieJar, s: &str) -> (ok: bool)
    requires
        is_ascii(s),
    ensures
        (jar_originals(*final(jar)), ok) == load_pieces(jar_originals(*old(jar)), s@, 0),
        jar_delta(*final(jar)) == jar_delta(*old(jar)),
        jar_printable(*final(jar)) == jar_printable(*old(jar)),
{
    broadcast use vstd::string::is_ascii_spec_bytes;

    let len = s.as_bytes().len();
    assert(len == s@.len());
    let mut pos: usize = 0;
    loop
        invariant
            is_ascii(s),
            len == s@.len(),
            pos <= len,
            jar_delta(*jar) == jar_delta(*old(jar)),
            jar_printable(*jar) == jar_printable(*old(jar)),
            load_pieces(jar_originals(*old(jar)), s@, 0) == load_pieces(
                jar_originals(*jar),
                s@,
                pos as int,
            ),
        decreases len - pos,
    {
        let mut e: usize = pos;
        while e < len && s.get_ascii(e) != 0x3b
            invariant
                is_ascii(s),
                len == s@.len(),
                pos <= e <= len,
                piece_end(s@, pos as int) == piece_end(s@, e as int),
            decreases len - e,
        {
            e = e + 1;
        }
        let mut a: usize = pos;
        while a < e && (s.get_ascii(a) == 0x20 || s.get_ascii(a) == 0x09)
            invariant
                is_ascii(s),
                len == s@.len(),
                pos <= a <= e <= len,
                skip_front(s@, pos as int, e as int) == skip_front(s@, a as int, e as int),
            decreases e - a,
        {
            a = a + 1;
        }
        let mut b: usize = e;
        while a < b && (s.get_ascii(b - 1) == 0x20 || s.get_ascii(b - 1) == 0x09)
            invariant
                is_ascii(s),
                len == s@.len(),
                a <= b <= e <= len,
                skip_back(s@, a as int, e as int) == skip_back(s@, a as int, b as int),
            decreases b - a,
        {
            b = b - 1;
        }
        let piece = s.substring_ascii(a, b);
        if !keep_cookie(jar, parse_pair(piece)) {
            return false;
        }
        if e >= len {
            return true;
        }
        pos = e + 1;
    }
}

/// A proxy for the cookies of a request.
pub struct Cookies {
    jar: Option<CookieJar>,
}

impl Cookies {
    #[verifier::type_invariant]
    spec fn inv(self) -> bool {
        self.jar matches Some(j) ==> jar_printable(j)
    }

    /// The jar, once it is filled.
    pub closed spec fn spec_jar(&self) -> Option<CookieJar> {
        self.jar
    }

    /// The changes to the cookies: those of the jar, and none before it is
    /// filled.
    pub open spec fn changes(&self) -> Map<Seq<char>, Seq<char>> {
        match self.spec_jar() {
            Some(j) => jar_delta(j),
            None => Map::empty(),
        }
    }

    /// A proxy whose jar is not filled yet.
    pub fn new() -> (c: Cookies)
        ensures
            c.spec_jar().is_none(),
    {
        Cookies { jar: None }
    }

    /// Whether the jar is filled.
    pub fn is_loaded(&self) -> (b: bool)
        ensures
            b == self.spec_jar().is_some(),
    {
        self.jar.is_some()
    }

    /// Fills the jar from the values of the `Cookie` headers of the request,
    /// unless it is filled already.  A header that is no text or holds a
    /// piece that is no cookie is a bad request; the jar keeps what was read
    /// before it.
    pub fn jar(&mut self, headers: &Vec<Vec<u8>>) -> (r: Result<(), Failure>)
        ensures
            final(self).spec_jar().is_some(),
            old(self).spec_jar().is_some() ==> r.is_ok() && final(self).spec_jar() == old(
                self,
            ).spec_jar(),
            old(self).spec_jar().is_none() ==> {
                let (originals, ok) = load_headers(Map::empty(), headers@, 0);
                &&& jar_originals(final(self).spec_jar()->Some_0) == originals
                &&& jar_delta(final(self).spec_jar()->Some_0) == no_changes()
                &&& r == if ok {
                    Ok::<(), Failure>(())
                } else {
                    Err::<(), Failure>(Failure::BadRequest)
                }
            },
    {
        if self.jar.is_some() {
            return Ok(());
        }
        let mut jar = new_jar();
        let mut k: usize = 0;
        let mut ok = true;
        while ok && k < headers.len()
            invariant
                k <= headers@.len(),
                jar_delta(jar) == no_changes(),
                jar_printable(jar),
                ok ==> load_headers(Map::empty(), headers@, 0) == load_headers(
                    jar_originals(jar),
                    headers@,
                    k as int,
                ),
                !ok ==> load_headers(Map::empty(), headers@, 0) == (jar_originals(jar), false),
            decreases headers@.len() - k + (if ok { 1int } else { 0int }),
        {
            match header_text(headers[k].as_slice()) {
                None => {
                    ok = false;
                },
                Some(s) => {
                    if load_text(&mut jar, s) {
                        k = k + 1;
                    } else {
                        ok = false;
                    }
                },
            }
        }
        self.jar = Some(jar);
        if ok {
            Ok(())
        } else {
            Err(Failure::BadRequest)
        }
    }

    /// The jar, if it is filled.
    pub fn get(&self) -> (r: Option<&CookieJar>)
        ensures
            match self.spec_jar() {
                Some(j) => r == Some(&j),
                None => r.is_none(),
            },
    {
        self.jar.as_ref()
    }

    /// Sets a cookie: it goes among the changes to the jar, in the place of
    /// the change of its name.  Nothing is done, and `false` is returned,
    /// before the jar is filled and for a cookie that cannot be printed.
    pub fn add(&mut self, cookie: NewCookie) -> (ok: bool)
        ensures
            ok == (old(self).spec_jar().is_some() && cookie.printable()),
            !ok ==> final(self).spec_jar() == old(self).spec_jar(),
            ok ==> final(self).spec_jar().is_some() && jar_originals(final(self).spec_jar()->Some_0)
                == jar_originals(old(self).spec_jar()->Some_0) && final(self).changes() == old(
                self,
            ).changes().insert(cookie.name@, cookie.text()),
    {
        proof {
            use_type_invariant(&*self);
        }
        let printable = match &cookie.expires {
            Some(t) => t.is_printable(),
            None => true,
        };
        if !printable || self.jar.is_none() {
            return false;
        }
        let mut taken: Option<CookieJar> = None;
        core::mem::swap(&mut self.jar, &mut taken);
        let mut jar = taken.unwrap();
        add_cookie(&mut jar, cookie);
        self.jar = Some(jar);
        true
    }

    /// Removes the cookie called `name`, which was set for this domain and
    /// path.  A cookie that came with the request is replaced by a change
    /// that tells the client to drop it; for any other the change of its
    /// name is dropped.  Nothing is done, and `false` is returned, before
    /// the jar is filled.
    pub fn remove(&mut self, name: String, domain: Option<String>, path: Option<String>) -> (ok:
        bool)
        ensures
            ok == old(self).spec_jar().is_some(),
            !ok ==> final(self).spec_jar() == old(self).spec_jar(),
            ok ==> final(self).spec_jar().is_some() && jar_originals(final(self).spec_jar()->Some_0)
                == jar_originals(old(self).spec_jar()->Some_0) && final(self).changes().remove(
                name@,
            ) == old(self).changes().remove(name@) && final(self).changes().contains_key(name@)
                == jar_originals(old(self).spec_jar()->Some_0).contains_key(name@),
    {
        proof {
            use_type_invariant(&*self);
        }
        if self.jar.is_none() {
            return false;
        }
        let mut taken: Option<CookieJar> = None;
        core::mem::swap(&mut self.jar, &mut taken);
        let mut jar = taken.unwrap();
        remove_cookie(&mut jar, name, domain, path);
        self.jar = Some(jar);
        true
    }

    /// The changes to the jar: each cookie that was added or removed, once,
    /// with its name and the text of its `Set-Cookie` header.  A jar that
    /// was never filled has none.
    pub fn delta(&self) -> (list: Vec<(String, String)>)
        ensures
            enumerates(named_texts(list@), self.changes()),
    {
        proof {
            use_type_invariant(self);
        }
        match &self.jar {
            Some(j) => delta_list(j),
            None => Vec::new(),
        }
    }
}

} // verus!
