//! What a handler sees of a request: the parameters that the route has
//! bound and the state of its scope.

use http::header::{HeaderMap, HeaderValue};
use vstd::multiset::Multiset;
use vstd::prelude::*;
use vstd::string::StringSliceAdditionalSpecFns;
use vstd::utf8::{
    is_char_boundary, is_char_boundary_iff_not_is_continuation_byte,
    is_char_boundary_start_end_of_seq, length_of_first_scalar, pop_first_scalar, valid_utf8,
    valid_utf8_split,
};
use crate::app::AppInner;
use crate::headers::{
    append_header, header_count, header_name, header_pairs, new_headers, valid_header_value,
    Pair, MAX_HEADERS,
};
use crate::reply::{appended, staged_of};
use crate::method::AllowedMethods;
use crate::recognizer::{
    is_rest, is_segment, lemma_recognize_captures, recognize_path, Captures, CapturesView, Edge,
};
use crate::scope::ScopeId;
use crate::uri::{capture_names, first_index, Uri};

verus! {

/// Whether `s..e` is a range of `path` that cuts no character.
pub open spec fn valid_range(path: Seq<u8>, s: int, e: int) -> bool {
    &&& 0 <= s <= e <= path.len()
    &&& is_char_boundary(path, e)
    &&& is_char_boundary(path.subrange(0, e), s)
}

/// The bytes of `path` in `range`, if the range is valid.
pub open spec fn slice_of(path: Seq<u8>, range: (int, int)) -> Option<Seq<u8>> {
    if valid_range(path, range.0, range.1) {
        Some(path.subrange(range.0, range.1))
    } else {
        None
    }
}

/// The bytes of an optional string.
pub open spec fn bytes_of(s: Option<&str>) -> Option<Seq<u8>> {
    match s {
        Some(t) => Some(t.spec_bytes()),
        None => None,
    }
}

/// The part `s..e` of `path`, if that range cuts no character.
pub fn slice<'a>(path: &'a str, s: usize, e: usize) -> (r: Option<&'a str>)
    ensures
        bytes_of(r) == slice_of(path.spec_bytes(), (s as int, e as int)),
{
    if s > e || e > path.as_bytes().len() {
        return None;
    }
    if !path.is_char_boundary(e) {
        return None;
    }
    let (head, _) = path.split_at(e);
    if !head.is_char_boundary(s) {
        return None;
    }
    let (_, part) = head.split_at(s);
    assert(part.spec_bytes() =~= path.spec_bytes().subrange(s as int, e as int));
    Some(part)
}

/// The parameters of a request as a mathematical value.
pub struct ParamsView {
    /// The request path.
    pub path: Seq<u8>,
    /// The names that the pattern binds, in order.
    pub names: Seq<Seq<u8>>,
    /// The ranges that the match has bound.
    pub captures: CapturesView,
}

impl ParamsView {
    /// The value of the `i`-th parameter.
    pub open spec fn get(self, i: int) -> Option<Seq<u8>> {
        if 0 <= i < self.captures.params.len() {
            slice_of(self.path, self.captures.params[i])
        } else {
            None
        }
    }

    /// The value of the wildcard parameter.
    pub open spec fn get_wildcard(self) -> Option<Seq<u8>> {
        match self.captures.wildcard {
            Some(range) => slice_of(self.path, range),
            None => None,
        }
    }

    /// The value of the parameter called `name`; `*` calls the wildcard.
    pub open spec fn name(self, name: Seq<u8>) -> Option<Seq<u8>> {
        if name == seq![0x2au8] {
            self.get_wildcard()
        } else {
            match first_index(self.names, name, 0) {
                Some(i) => self.get(i),
                None => None,
            }
        }
    }
}

/// A proxy for the parameters that a route has bound.
#[derive(Debug)]
pub struct Params<'input> {
    path: &'input str,
    names: &'input Uri,
    captures: &'input Captures,
}

impl<'input> View for Params<'input> {
    type V = ParamsView;

    closed spec fn view(&self) -> ParamsView {
        ParamsView {
            path: self.path.spec_bytes(),
            names: capture_names(self.names@.components),
            captures: self.captures@,
        }
    }
}

impl<'input> Params<'input> {
    /// The parameters of a request for `path` that matched the pattern
    /// `names` and bound `captures`.
    pub fn new(path: &'input str, names: &'input Uri, captures: &'input Captures) -> (p: Self)
        ensures
            p@.path == path.spec_bytes(),
            p@.names == capture_names(names@.components),
            p@.captures == captures@,
    {
        Params { path, names, captures }
    }

    /// Returns `true` if no parameter was bound.
    pub fn is_empty(&self) -> (b: bool)
        ensures
            b == (self@.captures.params.len() == 0 && self@.captures.wildcard.is_none()),
    {
        self.captures.params.len() == 0 && self.captures.wildcard.is_none()
    }

    /// Returns the value of the `i`-th parameter, if it exists.
    pub fn get(&self, i: usize) -> (r: Option<&'input str>)
        ensures
            bytes_of(r) == self@.get(i as int),
    {
        if i >= self.captures.params.len() {
            return None;
        }
        let (s, e) = self.captures.params[i];
        slice(self.path, s, e)
    }

    /// Returns the value of the wildcard parameter, if it exists.
    pub fn get_wildcard(&self) -> (r: Option<&'input str>)
        ensures
            bytes_of(r) == self@.get_wildcard(),
    {
        match self.captures.wildcard {
            Some((s, e)) => slice(self.path, s, e),
            None => None,
        }
    }

    /// Returns the value of the parameter whose name is `name`, if it
    /// exists.  The name `*` stands for the wildcard parameter.
    pub fn name(&self, name: &str) -> (r: Option<&'input str>)
        ensures
            bytes_of(r) == self@.name(name.spec_bytes()),
    {
        let bytes = name.as_bytes();
        if bytes.len() == 1 && bytes[0] == 0x2a {
            assert(bytes@ =~= seq![0x2au8]);
            return self.get_wildcard();
        }
        assert(bytes@ != seq![0x2au8]) by {
            if bytes@ == seq![0x2au8] {
                assert(seq![0x2au8].len() == 1);
                assert(seq![0x2au8][0] == 0x2au8);
            }
        }
        match self.names.position(bytes) {
            Some(i) => self.get(i),
            None => None,
        }
    }
}

/// In valid UTF-8 an ASCII byte is a character of its own: a character
/// starts at it, and one starts after it.
pub proof fn lemma_boundary_after_ascii(bytes: Seq<u8>, i: int)
    requires
        valid_utf8(bytes),
        0 <= i < bytes.len(),
        bytes[i] < 0x80,
    ensures
        is_char_boundary(bytes, i),
        is_char_boundary(bytes, i + 1),
    decreases bytes.len(),
{
    is_char_boundary_iff_not_is_continuation_byte(bytes, i);
    reveal_with_fuel(is_char_boundary, 2);
    if i > 0 {
        let l = length_of_first_scalar(bytes);
        let tail = pop_first_scalar(bytes);
        assert(tail[i - l] == bytes[i]);
        lemma_boundary_after_ascii(tail, i - l);
    }
}

/// A whole segment of a path that is valid UTF-8 cuts no character.
pub proof fn lemma_segment_is_valid(path: Seq<u8>, span: (int, int))
    requires
        valid_utf8(path),
        is_segment(path, span) || is_rest(path, span),
    ensures
        valid_range(path, span.0, span.1),
        slice_of(path, span) == Some(path.subrange(span.0, span.1)),
{
    let (s, e) = span;
    if e == path.len() {
        is_char_boundary_start_end_of_seq(path);
    } else {
        lemma_boundary_after_ascii(path, e);
    }
    valid_utf8_split(path, e);
    let head = path.subrange(0, e);
    if s == e {
        is_char_boundary_start_end_of_seq(head);
    } else {
        assert(head[s - 1] == path[s - 1]);
        lemma_boundary_after_ascii(head, s - 1);
    }
}

/// The parameters of a match are the values that the match has bound: on a
/// path that is valid UTF-8, every capture gives the whole segment that it
/// stands for, and the wildcard gives all that follows its `/`.
pub proof fn lemma_params_of_match(keys: Seq<Seq<Edge>>, path: Seq<u8>, names: Seq<Seq<u8>>)
    requires
        valid_utf8(path),
        recognize_path(keys, path) is Found,
    ensures
        ({
            let captures = recognize_path(keys, path)->Found_captures;
            let params = ParamsView { path, names, captures };
            &&& forall|i: int|
                0 <= i < captures.params.len() ==> is_segment(path, captures.params[i])
                    && #[trigger] params.get(i) == Some(
                    path.subrange(captures.params[i].0, captures.params[i].1),
                )
            &&& captures.wildcard matches Some(w) ==> is_rest(path, w) && params.get_wildcard()
                == Some(path.subrange(w.0, w.1))
        }),
{
    let captures = recognize_path(keys, path)->Found_captures;
    let params = ParamsView { path, names, captures };
    lemma_recognize_captures(keys, path);
    assert forall|i: int| 0 <= i < captures.params.len() implies is_segment(
        path,
        captures.params[i],
    ) && #[trigger] params.get(i) == Some(
        path.subrange(captures.params[i].0, captures.params[i].1),
    ) by {
        lemma_segment_is_valid(path, captures.params[i]);
    }
    if let Some(w) = captures.wildcard {
        lemma_segment_is_valid(path, w);
    }
}

/// A proxy for the state that holds in the scope of a request.
pub struct States<'task, H, M, S> {
    data: &'task AppInner<H, M, S>,
    scope_id: Option<ScopeId>,
}

impl<'task, H, M, S> States<'task, H, M, S> {
    /// The application that the proxy reads.
    pub closed spec fn data(&self) -> AppInner<H, M, S> {
        *self.data
    }

    /// The scope of the request, if it has been placed in one.
    pub closed spec fn scope_id(&self) -> Option<ScopeId> {
        self.scope_id
    }

    /// The invariant: the application is well formed and has the scope.
    pub open spec fn wf(&self) -> bool {
        &&& self.data().wf()
        &&& self.scope_id() matches Some(id) ==> id.0 < self.data()@.scopes.len()
    }

    /// The value of the state `key` that the proxy shows.
    pub open spec fn value(&self, key: u64) -> Option<S> {
        match self.scope_id() {
            Some(id) => self.data()@.state_at(key, id.0 as int),
            None => None,
        }
    }

    /// The state of `scope_id` in `data`.
    pub fn new(data: &'task AppInner<H, M, S>, scope_id: Option<ScopeId>) -> (s: Self)
        requires
            data.wf(),
            scope_id matches Some(id) ==> id.0 < data@.scopes.len(),
        ensures
            s.wf(),
            s.data() == *data,
            s.scope_id() == scope_id,
    {
        States { data, scope_id }
    }

    /// Returns the state `key` of the scope: the value that the nearest
    /// scope towards the root has set.
    pub fn try_get(&self, key: u64) -> (r: Option<&'task S>)
        requires
            self.wf(),
        ensures
            match self.value(key) {
                Some(v) => r == Some(&v),
                None => r.is_none(),
            },
    {
        match self.scope_id {
            Some(id) => self.data.get_state(key, id),
            None => None,
        }
    }

    /// Returns the state `key` of the scope, which must be set.
    pub fn get(&self, key: u64) -> (r: &'task S)
        requires
            self.wf(),
            self.value(key).is_some(),
        ensures
            *r == self.value(key)->Some_0,
    {
        self.try_get(key).unwrap()
    }
}

/// What has become of the body of a request.
pub enum BodyState<B> {
    /// The body is there.
    Present(B),
    /// The body was taken.
    Gone,
    /// The connection was handed over to an upgrade.
    Upgraded,
}

/// The parts of a request that a handler can take or fill: the body, and
/// the headers that it stages for the response.
pub struct Input<B> {
    body: BodyState<B>,
    response_headers: Option<HeaderMap<HeaderValue>>,
    allowed_methods: Option<Option<AllowedMethods>>,
}

impl<B> Input<B> {
    /// What has become of the body.
    pub closed spec fn spec_body(&self) -> BodyState<B> {
        self.body
    }

    /// The headers that were staged, if any were.
    pub closed spec fn spec_response_headers(&self) -> Option<HeaderMap<HeaderValue>> {
        self.response_headers
    }

    /// The methods of the route that was matched, if one was; `Some(None)`
    /// stands for a route that serves every method.
    pub closed spec fn spec_allowed_methods(&self) -> Option<Option<AllowedMethods>> {
        self.allowed_methods
    }

    /// The input of a request with this body that matched a route with
    /// these methods.
    pub fn new(body: B, allowed_methods: Option<Option<AllowedMethods>>) -> (input: Self)
        ensures
            input.spec_body() == BodyState::Present(body),
            input.spec_response_headers().is_none(),
            input.spec_allowed_methods() == allowed_methods,
    {
        Input { body: BodyState::Present(body), response_headers: None, allowed_methods }
    }

    /// Takes the body of the request.  Afterwards the body is gone, whatever
    /// had become of it before.
    pub fn body(&mut self) -> (r: Option<B>)
        ensures
            r == match old(self).spec_body() {
                BodyState::Present(b) => Some(b),
                _ => None,
            },
            final(self).spec_body() == BodyState::<B>::Gone,
            final(self).spec_response_headers() == old(self).spec_response_headers(),
            final(self).spec_allowed_methods() == old(self).spec_allowed_methods(),
    {
        let mut taken = BodyState::Gone;
        core::mem::swap(&mut self.body, &mut taken);
        match taken {
            BodyState::Present(b) => Some(b),
            _ => None,
        }
    }

    /// Hands the connection over to `on_upgrade`: it is given back together
    /// with the body, which the upgrade is made from, or alone where the
    /// body is not there any more.  Afterwards the input counts as upgraded
    /// either way.
    pub fn upgrade<F>(&mut self, on_upgrade: F) -> (r: Result<(B, F), F>)
        ensures
            r == match old(self).spec_body() {
                BodyState::Present(b) => Ok::<(B, F), F>((b, on_upgrade)),
                _ => Err::<(B, F), F>(on_upgrade),
            },
            final(self).spec_body() == BodyState::<B>::Upgraded,
            final(self).spec_response_headers() == old(self).spec_response_headers(),
            final(self).spec_allowed_methods() == old(self).spec_allowed_methods(),
    {
        let mut taken = BodyState::Upgraded;
        core::mem::swap(&mut self.body, &mut taken);
        match taken {
            BodyState::Present(b) => Ok((b, on_upgrade)),
            _ => Err(on_upgrade),
        }
    }

    /// Returns `true` if the connection was handed over to an upgrade.
    pub fn is_upgraded(&self) -> (b: bool)
        ensures
            b == (self.spec_body() is Upgraded),
    {
        match self.body {
            BodyState::Upgraded => true,
            _ => false,
        }
    }

    /// Makes sure that there are staged headers: an empty map is put where
    /// there is none.
    pub fn response_headers(&mut self)
        ensures
            final(self).spec_body() == old(self).spec_body(),
            final(self).spec_allowed_methods() == old(self).spec_allowed_methods(),
            final(self).spec_response_headers().is_some(),
            old(self).spec_response_headers().is_some() ==> final(self).spec_response_headers()
                == old(self).spec_response_headers(),
            old(self).spec_response_headers().is_none() ==> header_pairs(
                final(self).spec_response_headers()->Some_0,
            ) == Multiset::<Pair>::empty(),
    {
        if self.response_headers.is_none() {
            self.response_headers = Some(new_headers());
        }
    }

    /// Stages a header for the response, beside the staged headers of its
    /// name.  A header whose name or value is refused, or for which there
    /// is no room, is left out, and `false` is returned.
    pub fn stage_header(&mut self, name: &[u8], value: &[u8]) -> (ok: bool)
        ensures
            final(self).spec_body() == old(self).spec_body(),
            final(self).spec_allowed_methods() == old(self).spec_allowed_methods(),
            final(self).spec_response_headers().is_some(),
            header_pairs(final(self).spec_response_headers()->Some_0) == appended(
                staged_of(old(self).spec_response_headers()),
                name@,
                value@,
            ),
            ok == (staged_of(old(self).spec_response_headers()).len() < MAX_HEADERS && header_name(
                name@,
            ).is_some() && valid_header_value(value@)),
    {
        let mut taken: Option<HeaderMap<HeaderValue>> = None;
        core::mem::swap(&mut self.response_headers, &mut taken);
        let mut map = match taken {
            Some(map) => map,
            None => new_headers(),
        };
        let ok = if header_count(&map) < MAX_HEADERS {
            append_header(&mut map, name, value)
        } else {
            false
        };
        self.response_headers = Some(map);
        ok
    }

    /// Tells the input of the route that was matched: `allowed_methods` are
    /// the methods that it serves, `Some(None)` for every method.
    pub fn set_allowed_methods(&mut self, allowed_methods: Option<Option<AllowedMethods>>)
        ensures
            final(self).spec_allowed_methods() == allowed_methods,
            final(self).spec_body() == old(self).spec_body(),
            final(self).spec_response_headers() == old(self).spec_response_headers(),
    {
        self.allowed_methods = allowed_methods;
    }

    /// Takes the staged headers, for the finishing of the reply.
    pub fn take_response_headers(&mut self) -> (r: Option<HeaderMap<HeaderValue>>)
        ensures
            r == old(self).spec_response_headers(),
            final(self).spec_response_headers().is_none(),
            final(self).spec_body() == old(self).spec_body(),
            final(self).spec_allowed_methods() == old(self).spec_allowed_methods(),
    {
        self.response_headers.take()
    }

    /// The methods of the route that was matched, if one was.
    pub fn allowed_methods(&self) -> (r: Option<Option<AllowedMethods>>)
        ensures
            r == self.spec_allowed_methods(),
    {
        self.allowed_methods
    }
}

} // verus!
