//! The decisions of serving static files: entity tags, conditional
//! requests, and the headers of a file response.

use std::path::PathBuf;
use std::sync::Arc;
use vstd::prelude::*;
use vstd::string::StringSliceAdditionalSpecFns;
use vstd::utf8::{decode_utf8, is_char_boundary};
use crate::bytes::{append_bytes, copy_bytes};
use crate::cookies::{header_text, is_text};
use crate::date::TmFields;
use crate::error::Failure;
use crate::input::Params;
use crate::method::{AllowedMethods, Method};
use crate::uri::{parse_uri, PatternError, Uri};
use crate::reply::{decimal_digits, push_decimal};
use crate::service::share;

verus! {

/// The hexadecimal digits of `n` in lower case, as ASCII.
pub open spec fn hex_digits(n: nat) -> Seq<u8>
    decreases n,
{
    if n < 16 {
        seq![hex_digit(n)]
    } else {
        hex_digits(n / 16).push(hex_digit(n % 16))
    }
}

/// The hexadecimal digit of a value below 16.
pub open spec fn hex_digit(d: nat) -> u8 {
    if d < 10 {
        (48 + d) as u8
    } else {
        (87 + d) as u8
    }
}

/// Appends the hexadecimal digits of `n` to `v`.
pub fn push_hex(v: &mut Vec<u8>, n: u64)
    ensures
        final(v)@ == old(v)@ + hex_digits(n as nat),
    decreases n,
{
    if n >= 16 {
        push_hex(v, n / 16);
    }
    let d: u8 = (n % 16) as u8;
    let digit: u8 = if d < 10 {
        48 + d
    } else {
        87 + d
    };
    v.push(digit);
    assert(final(v)@ =~= old(v)@ + hex_digits(n as nat));
}

/// The value of a signed number read as an unsigned one of 64 bits.
pub open spec fn unsigned_of(x: i64) -> nat {
    if x >= 0 {
        x as nat
    } else {
        (x + 0x1_0000_0000_0000_0000) as nat
    }
}

/// A signed number read as an unsigned one of 64 bits.
pub fn to_unsigned(x: i64) -> (u: u64)
    ensures
        u == unsigned_of(x),
{
    if x >= 0 {
        x as u64
    } else {
        let low: u64 = (x + 0x7fff_ffff_ffff_ffff + 1) as u64;
        low + 0x8000_0000_0000_0000
    }
}

/// A point in time as a file system gives it: seconds since the epoch and
/// nanoseconds within the second.
#[derive(Clone, Copy, Debug, PartialEq, Eq, Structural)]
pub struct FileTime {
    pub seconds: i64,
    pub nanos: u32,
}

impl FileTime {
    /// Whether this time is later than `other`.
    pub open spec fn later_than(self, other: FileTime) -> bool {
        self.seconds > other.seconds || (self.seconds == other.seconds && self.nanos > other.nanos)
    }

    /// Whether this time is later than `other`.
    pub fn is_later_than(&self, other: &FileTime) -> (b: bool)
        ensures
            b == self.later_than(*other),
    {
        self.seconds > other.seconds || (self.seconds == other.seconds && self.nanos > other.nanos)
    }
}

/// An entity tag as a mathematical value.
pub struct ETagView {
    pub weak: bool,
    pub tag: Seq<u8>,
}

/// An entity tag.
#[derive(Debug)]
pub struct ETag {
    weak: bool,
    tag: Vec<u8>,
}

impl View for ETag {
    type V = ETagView;

    closed spec fn view(&self) -> ETagView {
        ETagView { weak: self.weak, tag: self.tag@ }
    }
}

/// Whether every byte is ASCII.
pub open spec fn all_ascii(s: Seq<u8>) -> bool {
    forall|i: int| 0 <= i < s.len() ==> (#[trigger] s[i]) < 128
}

/// The entity tag that the quoted text `s` holds: the text is at least two
/// bytes long, starts and ends with a quote, and is ASCII between them.
pub open spec fn parse_quoted(weak: bool, s: Seq<u8>) -> Option<ETagView> {
    if s.len() < 2 || s[0] != 0x22 || s.last() != 0x22 || !all_ascii(s.subrange(1, s.len() - 1)) {
        None
    } else {
        Some(ETagView { weak, tag: s.subrange(1, s.len() - 1) })
    }
}

/// The entity tag that the text `s` holds.  The first three bytes decide:
/// `W/"` starts a weak tag, a quote a strong one.  A text of less than
/// three bytes holds none.
pub open spec fn parse_etag(s: Seq<u8>) -> Option<ETagView> {
    if s.len() < 3 || !is_char_boundary(s, 3) {
        None
    } else if s[0] == 0x57 && s[1] == 0x2f && s[2] == 0x22 {
        parse_quoted(true, s.subrange(2, s.len() as int))
    } else if s[0] == 0x22 {
        parse_quoted(false, s)
    } else {
        None
    }
}

/// The text of an entity tag: the tag in quotes, after `W/` if it is weak.
pub open spec fn render_etag(e: ETagView) -> Seq<u8> {
    if e.weak {
        seq![0x57u8, 0x2fu8, 0x22u8] + e.tag + seq![0x22u8]
    } else {
        seq![0x22u8] + e.tag + seq![0x22u8]
    }
}

/// The tag that the metadata of a file gives: its length, and the seconds
/// and nanoseconds of its last change, in hexadecimal.
pub open spec fn metadata_tag(len: u64, modified: FileTime) -> Seq<u8> {
    hex_digits(len as nat) + seq![0x2du8] + hex_digits(unsigned_of(modified.seconds)) + seq![
        0x2eu8,
    ] + hex_digits(modified.nanos as nat)
}

impl ETag {
    /// The weak entity tag of a file of this length and this time of last
    /// change.
    pub fn from_metadata(len: u64, modified: &FileTime) -> (e: ETag)
        ensures
            e@ == (ETagView { weak: true, tag: metadata_tag(len, *modified) }),
    {
        let mut tag: Vec<u8> = Vec::new();
        push_hex(&mut tag, len);
        tag.push(0x2d);
        push_hex(&mut tag, to_unsigned(modified.seconds));
        tag.push(0x2e);
        push_hex(&mut tag, modified.nanos as u64);
        assert(tag@ =~= metadata_tag(len, *modified));
        ETag { weak: true, tag }
    }

    /// Reads an entity tag from quoted text.
    pub fn parse_inner(weak: bool, s: &[u8]) -> (r: Option<ETag>)
        ensures
            match parse_quoted(weak, s@) {
                Some(e) => r.is_some() && r->Some_0@ == e,
                None => r.is_none(),
            },
    {
        if s.len() < 2 {
            return None;
        }
        if s[0] != 0x22 || s[s.len() - 1] != 0x22 {
            return None;
        }
        let ghost inner = s@.subrange(1, s@.len() - 1);
        let mut tag: Vec<u8> = Vec::new();
        let mut i: usize = 1;
        while i < s.len() - 1
            invariant
                1 <= i <= s@.len() - 1,
                inner == s@.subrange(1, s@.len() - 1),
                tag@ == s@.subrange(1, i as int),
                forall|j: int| 0 <= j < i - 1 ==> (#[trigger] inner[j]) < 128,
            decreases s@.len() - i,
        {
            if s[i] >= 128 {
                assert(inner[i - 1] == s@[i as int]);
                return None;
            }
            tag.push(s[i]);
            assert(tag@ =~= s@.subrange(1, i + 1));
            assert(inner[i - 1] == s@[i as int]);
            i = i + 1;
        }
        Some(ETag { weak, tag })
    }

    /// Reads an entity tag from the text of a header.
    pub fn from_str(s: &str) -> (r: Option<ETag>)
        ensures
            match parse_etag(s.spec_bytes()) {
                Some(e) => r.is_some() && r->Some_0@ == e,
                None => r.is_none(),
            },
    {
        let bytes = s.as_bytes();
        if bytes.len() < 3 || !s.is_char_boundary(3) {
            return None;
        }
        if bytes[0] == 0x57 && bytes[1] == 0x2f && bytes[2] == 0x22 {
            let rest = vstd::slice::slice_subrange(bytes, 2, bytes.len());
            Self::parse_inner(true, rest)
        } else if bytes[0] == 0x22 {
            Self::parse_inner(false, bytes)
        } else {
            None
        }
    }

    /// Whether a resource with this tag matches one that is known under
    /// `other`: the tags are the same, and this one is weak or the other is
    /// not.
    pub fn eq(&self, other: &ETag) -> (b: bool)
        ensures
            b == (self@.tag == other@.tag && (self@.weak || !other@.weak)),
    {
        crate::bytes::bytes_eq(self.tag.as_slice(), other.tag.as_slice()) && (self.weak
            || !other.weak)
    }

    /// The text of the entity tag, as a header gives it.
    pub fn render(&self) -> (v: Vec<u8>)
        ensures
            v@ == render_etag(self@),
    {
        let mut v: Vec<u8> = Vec::new();
        if self.weak {
            v.push(0x57);
            v.push(0x2f);
        }
        v.push(0x22);
        append_bytes(&mut v, self.tag.as_slice());
        v.push(0x22);
        assert(v@ =~= render_etag(self@));
        v
    }
}

/// A set of configuration used in serving a file.
#[derive(Clone, Copy, Debug, PartialEq, Eq, Structural)]
pub struct OpenConfig {
    /// The size of chunked buffers.
    ///
    /// If `None`, it will be guessed based on the block size on the
    /// filesystem.
    pub chunk_size: Option<usize>,
    /// The maximal amount of time to refresh the resource, in seconds.
    ///
    /// If this field is set, the response will include a `Cache-Control`
    /// header that includes the parameter `max-age`.
    pub max_age: Option<u64>,
}

impl Default for OpenConfig {
    fn default() -> (c: OpenConfig)
        ensures
            c == (OpenConfig { chunk_size: None, max_age: None }),
    {
        OpenConfig { chunk_size: None, max_age: None }
    }
}

/// The value of the `Cache-Control` header of a file response.
pub open spec fn cache_control_text(max_age: Option<u64>) -> Seq<u8> {
    match max_age {
        Some(secs) => "public, max-age=".spec_bytes() + decimal_digits(secs as nat),
        None => "public".spec_bytes(),
    }
}

/// The value of the `Cache-Control` header under `config`.
pub fn cache_control(config: &OpenConfig) -> (v: Vec<u8>)
    ensures
        v@ == cache_control_text(config.max_age),
{
    match config.max_age {
        Some(secs) => {
            let mut v = copy_bytes("public, max-age=".as_bytes());
            push_decimal(&mut v, secs);
            v
        },
        None => copy_bytes("public".as_bytes()),
    }
}

/// The size of the buffers in which a file is read: the wanted size, or
/// the block size of the file system where none is wanted, but no more than
/// the length of the file.  A size that does not fit the machine is cut to
/// the bits that do.
pub open spec fn block_size_of(wanted: Option<usize>, len: u64, block: u64) -> usize {
    let size = match wanted {
        Some(n) => if len < n {
            len as int
        } else {
            n as int
        },
        None => if len < block {
            len as int
        } else {
            block as int
        },
    };
    (size % (usize::MAX + 1)) as usize
}

/// The size of the buffers in which a file is read.
pub fn finalize_block_size(wanted: Option<usize>, len: u64, block: u64) -> (size: usize)
    ensures
        size == block_size_of(wanted, len, block),
{
    let limit: u64 = usize::MAX as u64;
    let size: u64 = match wanted {
        Some(n) => {
            let n64 = n as u64;
            if len < n64 {
                len
            } else {
                n64
            }
        },
        None => if len < block {
            len
        } else {
            block
        },
    };
    if size <= limit {
        assert(size as int % (usize::MAX + 1) == size as int) by (nonlinear_arith)
            requires
                0 <= size as int <= usize::MAX,
        ;
        size as usize
    } else {
        (size % (limit + 1)) as usize
    }
}

/// Whether a file has changed for a client that knows it under the entity
/// tag `known`: it has unless the known tag matches the tag of the file.
pub open spec fn tag_modified(known: ETagView, own: ETagView) -> bool {
    !(known.tag == own.tag && (known.weak || !own.weak))
}

/// What a conditional request has been found to say.
pub enum Condition {
    /// The header `If-None-Match` gives this text.
    NoneMatch(Vec<u8>),
    /// The header `If-Modified-Since` gives this time, or a text that is no
    /// time.
    ModifiedSince(Option<FileTime>),
    /// The request has neither header.
    Unconditional,
}

/// Whether a file with the tag `own` that was changed last at `modified`
/// is to be sent under the condition of the request.  A header that cannot
/// be read is a bad request.
pub open spec fn modified_under(own: ETagView, modified: FileTime, c: Condition) -> Result<
    bool,
    Failure,
> {
    match c {
        Condition::NoneMatch(raw) => if !is_text(raw@) {
            Err(Failure::BadRequest)
        } else {
            match parse_etag(raw@) {
                Some(known) => Ok(tag_modified(known, own)),
                None => Err(Failure::BadRequest),
            }
        },
        Condition::ModifiedSince(since) => match since {
            Some(t) => Ok(modified.later_than(t)),
            None => Err(Failure::BadRequest),
        },
        Condition::Unconditional => Ok(true),
    }
}

/// Decides whether a file is to be sent or the client has it already.
pub fn is_modified(own: &ETag, modified: &FileTime, c: &Condition) -> (r: Result<bool, Failure>)
    ensures
        r == modified_under(own@, *modified, *c),
{
    match c {
        Condition::NoneMatch(raw) => {
            let text = match header_text(raw.as_slice()) {
                Some(text) => text,
                None => {
                    return Err(Failure::BadRequest);
                },
            };
            match ETag::from_str(text) {
                Some(known) => Ok(!known.eq(own)),
                None => Err(Failure::BadRequest),
            }
        },
        Condition::ModifiedSince(since) => match since {
            Some(t) => Ok(modified.is_later_than(t)),
            None => Err(Failure::BadRequest),
        },
        Condition::Unconditional => Ok(true),
    }
}

/// A response to a request for a file.
pub enum FileReply {
    /// The client has the file: status 304 and no body.
    NotModified,
    /// The file is sent with these values of the headers `Cache-Control`,
    /// `Last-Modified` and `ETag`, in buffers of this size.
    Send { cache_control: Vec<u8>, last_modified: String, etag: Vec<u8>, buf_size: usize },
}

/// A file that has been opened, by what its metadata say.
pub struct NamedFile {
    pub len: u64,
    pub block_size: u64,
    pub etag: ETag,
    pub last_modified: FileTime,
    pub config: OpenConfig,
}

impl NamedFile {
    /// The file of this length, block size and time of last change, to be
    /// served under `config`.
    pub fn new(len: u64, block_size: u64, last_modified: FileTime, config: OpenConfig) -> (f:
        NamedFile)
        ensures
            f.len == len,
            f.block_size == block_size,
            f.last_modified == last_modified,
            f.config == config,
            f.etag@ == (ETagView { weak: true, tag: metadata_tag(len, last_modified) }),
    {
        NamedFile {
            len,
            block_size,
            etag: ETag::from_metadata(len, &last_modified),
            last_modified,
            config,
        }
    }

    /// The response to a request with the condition `c`.  `last_modified`
    /// is the time of the last change in the form of the local time zone, or
    /// `None` where it could not be put in that form: then the server has
    /// failed.
    pub fn respond_to(&self, c: &Condition, last_modified: Option<String>) -> (r: Result<
        FileReply,
        Failure,
    >)
        ensures
            match modified_under(self.etag@, self.last_modified, *c) {
                Err(e) => r is Err && r->Err_0 == e,
                Ok(false) => r is Ok && r->Ok_0 is NotModified,
                Ok(true) => match last_modified {
                    None => r is Err && r->Err_0 == Failure::InternalServerError,
                    Some(text) => r is Ok && r->Ok_0 is Send && r->Ok_0->cache_control@
                        == cache_control_text(self.config.max_age) && r->Ok_0->last_modified == text
                        && r->Ok_0->etag@ == render_etag(self.etag@) && r->Ok_0->buf_size
                        == block_size_of(self.config.chunk_size, self.len, self.block_size),
                },
            },
    {
        match is_modified(&self.etag, &self.last_modified, c) {
            Err(e) => {
                return Err(e);
            },
            Ok(false) => {
                return Ok(FileReply::NotModified);
            },
            Ok(true) => {},
        }
        let text = match last_modified {
            Some(text) => text,
            None => {
                return Err(Failure::InternalServerError);
            },
        };
        Ok(
            FileReply::Send {
                cache_control: cache_control(&self.config),
                last_modified: text,
                etag: self.etag.render(),
                buf_size: finalize_block_size(self.config.chunk_size, self.len, self.block_size),
            },
        )
    }
}

/// The fields that `time::strptime` reads from a text in a format, or
/// `None` where it refuses the text.
pub uninterp spec fn strptime_tm(text: Seq<char>, format: Seq<char>) -> Option<TmFields>;

/// The fields of a date in one of the three forms of an HTTP date, by
/// `time::strptime`.  The formats are those of the three forms alone: other
/// formats make `strptime` read seconds since 1970, which it cannot always
/// turn into fields.
#[verifier::external_body]
pub(crate) fn strptime_fields(text: &str, format: &str) -> (r: Option<TmFields>)
    requires
        format@ == "%a, %d %b %Y %T %Z"@ || format@ == "%A, %d-%b-%y %T %Z"@ || format@ == "%c"@,
    ensures
        r == strptime_tm(text@, format@),
{
    time::strptime(text, format).ok().map(
        |t|
            TmFields {
                tm_sec: t.tm_sec, tm_min: t.tm_min, tm_hour: t.tm_hour, tm_mday: t.tm_mday,
                tm_mon: t.tm_mon, tm_year: t.tm_year, tm_wday: t.tm_wday, tm_yday: t.tm_yday,
                tm_isdst: t.tm_isdst, tm_utcoff: t.tm_utcoff, tm_nsec: t.tm_nsec,
            },
    )
}

/// The fields of a text that is a date in one of the three forms of an HTTP
/// date: that of RFC 1123, that of RFC 850, or that of `asctime`.  The forms
/// are tried in turn, and the first that the text has counts.
pub open spec fn http_date_fields(text: Seq<char>) -> Option<TmFields> {
    match strptime_tm(text, "%a, %d %b %Y %T %Z"@) {
        Some(f) => Some(f),
        None => match strptime_tm(text, "%A, %d-%b-%y %T %Z"@) {
            Some(f) => Some(f),
            None => strptime_tm(text, "%c"@),
        },
    }
}

/// The file time that calendar fields stand for, where they are a
/// universal time.
pub open spec fn time_of(f: TmFields) -> Option<FileTime> {
    if f.is_universal() {
        Some(FileTime { seconds: f.utc_seconds() as i64, nanos: f.tm_nsec as u32 })
    } else {
        None
    }
}

/// The time that a text gives as an HTTP date.
pub open spec fn http_date(text: Seq<char>) -> Option<FileTime> {
    match http_date_fields(text) {
        Some(f) => time_of(f),
        None => None,
    }
}

/// The time that a text gives in one of the forms of an HTTP date.
fn parse_http_date(text: &str) -> (r: Option<FileTime>)
    ensures
        r == http_date(text@),
{
    let first = strptime_fields(text, "%a, %d %b %Y %T %Z");
    let found = match first {
        Some(t) => Some(t),
        None => match strptime_fields(text, "%A, %d-%b-%y %T %Z") {
            Some(t) => Some(t),
            None => strptime_fields(text, "%c"),
        },
    };
    file_time_of(found)
}

/// The file time of the fields that a date was read as, where there are
/// any and they are a universal time.
pub fn file_time_of(t: Option<TmFields>) -> (r: Option<FileTime>)
    ensures
        r == match t {
            Some(f) => time_of(f),
            None => None,
        },
{
    match t {
        Some(f) => match f.to_utc_seconds() {
            Some(seconds) => Some(FileTime { seconds, nanos: f.tm_nsec as u32 }),
            None => None,
        },
        None => None,
    }
}

/// Reads the condition of a request from the values of its headers
/// `If-None-Match` and `If-Modified-Since`.  The first counts where both
/// are there.  A date gives the time that it stands for as universal time,
/// where it is text in one of the forms of an HTTP date.
pub fn condition_of(if_none_match: Option<&[u8]>, if_modified_since: Option<&[u8]>) -> (c:
    Condition)
    ensures
        match (if_none_match, if_modified_since) {
            (Some(raw), _) => c is NoneMatch && c->NoneMatch_0@ == raw@,
            (None, Some(raw)) => c is ModifiedSince && c->ModifiedSince_0 == (if is_text(raw@) {
                http_date(decode_utf8(raw@))
            } else {
                None
            }),
            (None, None) => c is Unconditional,
        },
{
    match if_none_match {
        Some(raw) => Condition::NoneMatch(copy_bytes(raw)),
        None => match if_modified_since {
            Some(raw) => match header_text(raw) {
                Some(text) => Condition::ModifiedSince(parse_http_date(text)),
                None => Condition::ModifiedSince(None),
            },
            None => Condition::Unconditional,
        },
    }
}

/// The paths of the standard library.  Nothing is known of a path.
#[verifier::external_type_specification]
#[verifier::external_body]
pub struct ExPathBuf(std::path::PathBuf);

/// The path `rel` under the directory `base`, by `Path::join`.  What the
/// result is depends on the platform.
#[verifier::external_body]
fn join_path(base: &PathBuf, rel: &str) -> (r: PathBuf) {
    base.join(rel)
}

/// A path that is shared.
pub struct ArcPath(Arc<PathBuf>);

impl ArcPath {
    /// The path that is shared.
    pub closed spec fn path(&self) -> PathBuf {
        *self.0
    }

    /// Shares `path`.
    pub fn from(path: PathBuf) -> (p: ArcPath)
        ensures
            p.path() == path,
    {
        ArcPath(Arc::new(path))
    }

    /// The path.
    pub fn as_ref(&self) -> (p: &PathBuf)
        ensures
            *p == self.path(),
    {
        &*self.0
    }

    /// The path `rel` under this one.
    pub fn join(&self, rel: &str) -> (p: ArcPath) {
        ArcPath(Arc::new(join_path(&*self.0, rel)))
    }
}

impl Clone for ArcPath {
    fn clone(&self) -> (p: ArcPath)
        ensures
            p.path() == self.path(),
    {
        ArcPath(share(&self.0))
    }
}

/// The opening of a file that is still to be done, or has failed before it
/// began.
pub enum OpenFutureInner<P> {
    /// The file at this path is to be opened under this configuration.
    Opening(P, Option<OpenConfig>),
    /// The failure, until it has been reported.
    Failed(Option<Failure>),
}

/// What is to be done for a file that waits to be opened.
pub enum OpenStep<P> {
    /// Open the file at this path and serve it under this configuration.
    Open(P, OpenConfig),
    /// Fail with this failure.
    Fail(Failure),
}

/// A file that waits to be opened.
pub struct OpenFuture<P> {
    pub inner: OpenFutureInner<P>,
}

impl<P> OpenFuture<P> {
    /// Whether the future has reported its failure already.
    pub open spec fn spent(&self) -> bool {
        self.inner matches OpenFutureInner::Failed(None)
    }

    /// Takes the next step: the file is to be opened under its
    /// configuration, or under the default one if it has none; a failure is
    /// reported, once.
    pub fn poll(self) -> (r: OpenStep<P>)
        requires
            !self.spent(),
        ensures
            r == match self.inner {
                OpenFutureInner::Opening(path, config) => OpenStep::Open(
                    path,
                    match config {
                        Some(c) => c,
                        None => OpenConfig { chunk_size: None, max_age: None },
                    },
                ),
                OpenFutureInner::Failed(e) => OpenStep::Fail(e->Some_0),
            },
    {
        match self.inner {
            OpenFutureInner::Opening(path, config) => {
                let config = match config {
                    Some(c) => c,
                    None => OpenConfig::default(),
                };
                OpenStep::Open(path, config)
            },
            OpenFutureInner::Failed(e) => OpenStep::Fail(e.unwrap()),
        }
    }
}

impl NamedFile {
    /// Open a specified file with the default configuration.
    pub fn open<P>(path: P) -> (f: OpenFuture<P>)
        ensures
            f.inner == OpenFutureInner::Opening(path, None),
    {
        OpenFuture { inner: OpenFutureInner::Opening(path, None) }
    }

    /// Open a specified file with the provided configuration.
    pub fn open_with_config<P>(path: P, config: OpenConfig) -> (f: OpenFuture<P>)
        ensures
            f.inner == OpenFutureInner::Opening(path, Some(config)),
    {
        OpenFuture { inner: OpenFutureInner::Opening(path, Some(config)) }
    }
}

/// The reading of a file in chunks.
#[derive(Clone, Copy, Debug, PartialEq, Eq, Structural)]
pub enum ReadStream {
    /// The file is read in buffers of this size.
    Reading { buf_size: usize },
    /// The end of the file has been reached.
    Eof,
}

/// What the stream of a file does next.
#[derive(Clone, Copy, Debug, PartialEq, Eq, Structural)]
pub enum ReadStep {
    /// Read into a buffer of this size.
    Read(usize),
    /// Hand out the chunk that was read.
    Yield,
    /// The stream has ended.
    End,
}

impl ReadStream {
    /// The stream of a file of this length that is read in buffers of the
    /// wanted size.
    pub fn new(len: u64, block_size: u64, wanted: Option<usize>) -> (s: ReadStream)
        ensures
            s == (ReadStream::Reading { buf_size: block_size_of(wanted, len, block_size) }),
    {
        ReadStream::Reading { buf_size: finalize_block_size(wanted, len, block_size) }
    }

    /// What a poll of the stream asks for: a read while the file lasts, the
    /// end after it.
    pub fn poll(&self) -> (r: ReadStep)
        ensures
            r == match *self {
                ReadStream::Reading { buf_size } => ReadStep::Read(buf_size),
                ReadStream::Eof => ReadStep::End,
            },
    {
        match self {
            ReadStream::Reading { buf_size } => ReadStep::Read(*buf_size),
            ReadStream::Eof => ReadStep::End,
        }
    }

    /// Takes the number of bytes that a read has given: a chunk that is not
    /// empty is handed out, and an empty one is the end of the file.
    pub fn on_read(&mut self, n: usize) -> (r: ReadStep)
        ensures
            match *old(self) {
                ReadStream::Reading { buf_size } => if n > 0 {
                    *final(self) == *old(self) && r == ReadStep::Yield
                } else {
                    *final(self) == ReadStream::Eof && r == ReadStep::End
                },
                ReadStream::Eof => *final(self) == ReadStream::Eof && r == ReadStep::End,
            },
    {
        match self {
            ReadStream::Reading { .. } => {
                if n > 0 {
                    ReadStep::Yield
                } else {
                    *self = ReadStream::Eof;
                    ReadStep::End
                }
            },
            ReadStream::Eof => ReadStep::End,
        }
    }
}

/// The handler that serves the file at a path, or the files under it.
pub struct ServeFile {
    pub path: ArcPath,
    pub config: Option<OpenConfig>,
    pub extract_path: bool,
}

impl ServeFile {
    /// The methods that the handler serves: `GET` alone.
    pub fn allowed_methods(&self) -> (m: AllowedMethods)
        ensures
            m@ == set![Method::Get],
    {
        AllowedMethods::single(Method::Get)
    }

    /// Starts to serve a request.  A handler for the files under its path
    /// takes the rest of the way from the wildcard parameter, and fails
    /// where there is none; a handler for one file opens that file.
    pub fn call(&self, params: &Option<Params<'_>>) -> (f: OpenFuture<ArcPath>)
        ensures
            match f.inner {
                OpenFutureInner::Opening(path, config) => config == self.config && (
                !self.extract_path ==> path.path() == self.path.path()) && (self.extract_path
                    ==> params.is_some() && params->Some_0@.get_wildcard().is_some()),
                OpenFutureInner::Failed(e) => e == Some(Failure::InternalServerError)
                    && self.extract_path && (params.is_none()
                    || params->Some_0@.get_wildcard().is_none()),
            },
    {
        let path = if self.extract_path {
            let rest = match params {
                Some(p) => p.get_wildcard(),
                None => None,
            };
            match rest {
                Some(rel) => self.path.join(rel),
                None => {
                    return OpenFuture {
                        inner: OpenFutureInner::Failed(Some(Failure::InternalServerError)),
                    };
                },
            }
        } else {
            self.path.clone()
        };
        match self.config {
            Some(config) => NamedFile::open_with_config(path, config),
            None => NamedFile::open(path),
        }
    }
}

/// What an entry of a directory is.
#[derive(Clone, Copy, Debug, PartialEq, Eq, Structural)]
pub enum EntryKind {
    File,
    Dir,
    Other,
}

/// Why the entries of a directory could not be served.
#[derive(Clone, Copy, Debug, PartialEq, Eq, Structural)]
pub enum StaticfilesError {
    /// An entry is neither a file nor a directory.
    UnexpectedFileType,
    /// The name of an entry gives no pattern.
    Pattern(PatternError),
}

/// A configuration for adding the entries of a directory to the routes.
pub struct Staticfiles<P> {
    root_dir: P,
    config: Option<OpenConfig>,
}

/// The text of the pattern under which an entry is served: `/name` for a
/// file, and `/name/*path` for a directory.
pub open spec fn entry_pattern(name: Seq<u8>, kind: EntryKind) -> Seq<u8> {
    if kind == EntryKind::Dir {
        seq![0x2fu8] + name + "/*path".spec_bytes()
    } else {
        seq![0x2fu8] + name
    }
}

impl<P> Staticfiles<P> {
    /// The directory whose entries are served.
    pub closed spec fn spec_root_dir(&self) -> P {
        self.root_dir
    }

    /// The configuration of the handlers.
    pub closed spec fn spec_config(&self) -> Option<OpenConfig> {
        self.config
    }

    /// Create a new `Staticfiles` with the specified directory path.
    pub fn new(root_dir: P) -> (s: Self)
        ensures
            s.spec_root_dir() == root_dir,
            s.spec_config().is_none(),
    {
        Staticfiles { root_dir, config: None }
    }

    /// Sets the value of `OpenConfig` used in handlers.
    pub fn open_config(self, config: OpenConfig) -> (s: Self)
        ensures
            s.spec_root_dir() == self.spec_root_dir(),
            s.spec_config() == Some(config),
    {
        Staticfiles { config: Some(config), root_dir: self.root_dir }
    }

    /// The directory whose entries are served.
    pub fn root_dir(&self) -> (p: &P)
        ensures
            *p == self.spec_root_dir(),
    {
        &self.root_dir
    }

    /// The route for one entry of the directory: a file is served under its
    /// name, a directory under its name with the rest of the path as the
    /// wildcard parameter, and anything else is refused.
    pub fn configure(&self, name: &str, path: ArcPath, kind: EntryKind) -> (r: Result<
        (Uri, ServeFile),
        StaticfilesError,
    >)
        ensures
            match kind {
                EntryKind::Other => r is Err && r->Err_0 == StaticfilesError::UnexpectedFileType,
                _ => match parse_uri(entry_pattern(name.spec_bytes(), kind)) {
                    Err(e) => r is Err && r->Err_0 == StaticfilesError::Pattern(e),
                    Ok(u) => r is Ok && r->Ok_0.0@ == u && r->Ok_0.1.path.path() == path.path()
                        && r->Ok_0.1.config == self.spec_config() && r->Ok_0.1.extract_path == (kind
                        == EntryKind::Dir),
                },
            },
    {
        let extract_path = match kind {
            EntryKind::File => false,
            EntryKind::Dir => true,
            EntryKind::Other => {
                return Err(StaticfilesError::UnexpectedFileType);
            },
        };
        let mut text: Vec<u8> = Vec::new();
        text.push(0x2f);
        append_bytes(&mut text, name.as_bytes());
        if extract_path {
            append_bytes(&mut text, "/*path".as_bytes());
        }
        assert(text@ =~= entry_pattern(name.spec_bytes(), kind));
        match Uri::from_bytes(text.as_slice()) {
            Ok(uri) => Ok((uri, ServeFile { path, config: self.config, extract_path })),
            Err(e) => Err(StaticfilesError::Pattern(e)),
        }
    }
}

} // verus!
