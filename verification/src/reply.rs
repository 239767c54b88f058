//! The finishing of a reply: the cookies that were set, the headers that
//! were staged, and the length of the body go into the response headers.

use http::header::{HeaderMap, HeaderValue};
use vstd::multiset::Multiset;
use vstd::prelude::*;
use vstd::string::StringSliceAdditionalSpecFns;
use vstd::utf8::encode_utf8;
use crate::cookies::{enumerates, named_texts, Cookies};
use crate::headers::{
    append_header, contains_header, header_count, header_list, header_name, header_pairs,
    pairs_of, valid_header_value, Pair, MAX_HEADERS,
};

verus! {

/// The decimal digits of `n`, as ASCII.
pub open spec fn decimal_digits(n: nat) -> Seq<u8>
    decreases n,
{
    if n < 10 {
        seq![(48 + n) as u8]
    } else {
        decimal_digits(n / 10).push((48 + n % 10) as u8)
    }
}

/// Appends the decimal digits of `n` to `v`.
pub fn push_decimal(v: &mut Vec<u8>, n: u64)
    ensures
        final(v)@ == old(v)@ + decimal_digits(n as nat),
    decreases n,
{
    if n >= 10 {
        push_decimal(v, n / 10);
    }
    let digit: u8 = 48 + (n % 10) as u8;
    v.push(digit);
    assert(final(v)@ =~= old(v)@ + decimal_digits(n as nat));
}

/// The decimal digits of `n`.
pub fn decimal(n: u64) -> (v: Vec<u8>)
    ensures
        v@ == decimal_digits(n as nat),
{
    let mut v: Vec<u8> = Vec::new();
    push_decimal(&mut v, n);
    assert(v@ =~= decimal_digits(n as nat));
    v
}

/// The name of the header that sets a cookie.
pub open spec fn set_cookie_name() -> Seq<u8> {
    "set-cookie".spec_bytes()
}

/// The name of the header that gives the length of the body.
pub open spec fn content_length_name() -> Seq<u8> {
    "content-length".spec_bytes()
}

/// The headers after one more is added: a header whose name or value is
/// refused, or for which the map has no room, is left out.
pub open spec fn appended(pairs: Multiset<Pair>, name: Seq<u8>, value: Seq<u8>) -> Multiset<Pair> {
    if pairs.len() < MAX_HEADERS && header_name(name).is_some() && valid_header_value(value) {
        pairs.insert((header_name(name)->Some_0, value))
    } else {
        pairs
    }
}

/// The headers after the first `n` of `cookies` are added, each as a
/// header that sets a cookie.
pub open spec fn with_cookies(pairs: Multiset<Pair>, cookies: Seq<Seq<char>>, n: int) -> Multiset<
    Pair,
>
    decreases n,
{
    if n <= 0 || n > cookies.len() {
        pairs
    } else {
        appended(
            with_cookies(pairs, cookies, n - 1),
            set_cookie_name(),
            encode_utf8(cookies[n - 1]),
        )
    }
}

/// The headers after the first `n` of the staged headers are added.
pub open spec fn with_staged(pairs: Multiset<Pair>, staged: Seq<Pair>, n: int) -> Multiset<Pair>
    decreases n,
{
    if n <= 0 || n > staged.len() {
        pairs
    } else {
        appended(with_staged(pairs, staged, n - 1), staged[n - 1].0, staged[n - 1].1)
    }
}

/// Whether the headers hold one of this name.
pub open spec fn has_header(pairs: Multiset<Pair>, name: Seq<u8>) -> bool {
    match header_name(name) {
        Some(n) => exists|v: Seq<u8>| pairs.count((n, v)) > 0,
        None => false,
    }
}

/// The headers after the length of the body is filled in: where it is
/// known and no header gives it yet.
pub open spec fn with_content_length(pairs: Multiset<Pair>, length: Option<u64>) -> Multiset<Pair> {
    match length {
        Some(n) => if has_header(pairs, content_length_name()) {
            pairs
        } else {
            appended(pairs, content_length_name(), decimal_digits(n as nat))
        },
        None => pairs,
    }
}

/// The headers of a finished reply: the cookies, then the staged headers,
/// then the length of the body.
pub open spec fn finished(
    pairs: Multiset<Pair>,
    cookies: Seq<Seq<char>>,
    staged: Seq<Pair>,
    length: Option<u64>,
) -> Multiset<Pair> {
    with_content_length(
        with_staged(
            with_cookies(pairs, cookies, cookies.len() as int),
            staged,
            staged.len() as int,
        ),
        length,
    )
}

/// The text of each string of a list.
pub open spec fn texts(list: Seq<String>) -> Seq<Seq<char>> {
    Seq::new(list.len(), |i: int| list[i]@)
}

/// Adds one header to the response headers, if there is room for it.
fn add_header(output: &mut HeaderMap<HeaderValue>, name: &[u8], value: &[u8])
    ensures
        header_pairs(*final(output)) == appended(header_pairs(*old(output)), name@, value@),
{
    if header_count(output) < MAX_HEADERS {
        let _ = append_header(output, name, value);
    }
}

/// Finishes the headers of a reply.  Every cookie of `cookies` is added as
/// a `Set-Cookie` header, every header of `staged` is added beside those of
/// its name that are there, and the `Content-Length` is filled in from
/// `length` where it is known and the header is absent.
pub fn finish_headers(
    output: &mut HeaderMap<HeaderValue>,
    cookies: &Vec<String>,
    staged: &Vec<(Vec<u8>, Vec<u8>)>,
    length: Option<u64>,
)
    ensures
        header_pairs(*final(output)) == finished(
            header_pairs(*old(output)),
            texts(cookies@),
            pairs_of(staged@),
            length,
        ),
{
    let ghost start = header_pairs(*output);
    let mut i: usize = 0;
    while i < cookies.len()
        invariant
            i <= cookies@.len(),
            header_pairs(*output) == with_cookies(start, texts(cookies@), i as int),
        decreases cookies@.len() - i,
    {
        add_header(output, "set-cookie".as_bytes(), cookies[i].as_str().as_bytes());
        i = i + 1;
    }
    let ghost middle = header_pairs(*output);
    let mut j: usize = 0;
    while j < staged.len()
        invariant
            j <= staged@.len(),
            header_pairs(*output) == with_staged(middle, pairs_of(staged@), j as int),
        decreases staged@.len() - j,
    {
        add_header(output, staged[j].0.as_slice(), staged[j].1.as_slice());
        j = j + 1;
    }
    match length {
        Some(n) => {
            if !contains_header(output, "content-length".as_bytes()) {
                let digits = decimal(n);
                add_header(output, "content-length".as_bytes(), digits.as_slice());
            }
        },
        None => {},
    }
}

/// The headers that were staged for the response.
pub open spec fn staged_of(staged: Option<HeaderMap<HeaderValue>>) -> Multiset<Pair> {
    match staged {
        Some(map) => header_pairs(map),
        None => Multiset::empty(),
    }
}

/// What stands under each name of a list.
pub open spec fn second_of(list: Seq<(Seq<char>, Seq<char>)>) -> Seq<Seq<char>> {
    Seq::new(list.len(), |i: int| list[i].1)
}

/// Finishes a reply before it is sent, whether it comes from a handler or
/// from the error handler: the changes to the cookies go into `Set-Cookie`
/// headers, one for each cookie that was set or removed; the staged headers
/// are merged in; and the `Content-Length` is filled in where the length of
/// the body is known and the header is absent.  The cookies and the staged
/// headers are taken in the order in which their collections hand them out.
pub fn process_before_reply(
    output: &mut HeaderMap<HeaderValue>,
    cookies: &Cookies,
    staged: Option<HeaderMap<HeaderValue>>,
    length: Option<u64>,
)
    ensures
        exists|set: Seq<(Seq<char>, Seq<char>)>, merged: Seq<Pair>|
            enumerates(set, cookies.changes()) && merged.to_multiset() == staged_of(staged)
                && header_pairs(*final(output)) == finished(
                header_pairs(*old(output)),
                second_of(set),
                merged,
                length,
            ),
{
    let changes = cookies.delta();
    let mut set: Vec<String> = Vec::new();
    let mut i: usize = 0;
    while i < changes.len()
        invariant
            i <= changes@.len(),
            texts(set@) == second_of(named_texts(changes@)).take(i as int),
        decreases changes@.len() - i,
    {
        let text = changes[i].1.clone();
        assert(text@ == changes@[i as int].1@);
        let ghost before = texts(set@);
        set.push(text);
        assert(texts(set@) =~= before.push(text@));
        assert(texts(set@) =~= second_of(named_texts(changes@)).take(i + 1));
        i = i + 1;
    }
    assert(texts(set@) =~= second_of(named_texts(changes@)));
    let merged = match &staged {
        Some(map) => header_list(map),
        None => {
            let list: Vec<(Vec<u8>, Vec<u8>)> = Vec::new();
            assert(pairs_of(list@) =~= Seq::empty());
            assert(Seq::<Pair>::empty().to_multiset() =~= Multiset::empty()) by {
                broadcast use vstd::seq_lib::group_to_multiset_ensures;

            }
            list
        },
    };
    finish_headers(output, &set, &merged, length);
    assert(enumerates(named_texts(changes@), cookies.changes()));
    assert(pairs_of(merged@).to_multiset() == staged_of(staged));
}

} // verus!
