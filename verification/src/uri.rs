//! Route patterns: an ordered sequence of path components.

use vstd::prelude::*;
use vstd::string::StringSliceAdditionalSpecFns;
use crate::bytes::{
    append_bytes, bytes_eq, copy_bytes, copy_range, find_seg_end, lemma_seg_end,
    lemma_seg_end_unique, seg_end,
};

verus! {

/// One component of a route pattern, as a mathematical value.
pub enum Component {
    /// A literal segment.
    Static(Seq<u8>),
    /// A named capture of one non-empty segment.
    Capture(Seq<u8>),
    /// A named capture of the whole rest of the path.
    Wildcard(Seq<u8>),
    /// The trailing slash.
    Slash,
}

/// One component of a route pattern.
#[derive(Debug)]
pub enum UriComponent {
    /// A literal segment.
    Static(Vec<u8>),
    /// A named capture of one non-empty segment.
    Capture(Vec<u8>),
    /// A named capture of the whole rest of the path.
    Wildcard(Vec<u8>),
    /// The trailing slash.
    Slash,
}

impl View for UriComponent {
    type V = Component;

    open spec fn view(&self) -> Component {
        match self {
            UriComponent::Static(s) => Component::Static(s@),
            UriComponent::Capture(s) => Component::Capture(s@),
            UriComponent::Wildcard(s) => Component::Wildcard(s@),
            UriComponent::Slash => Component::Slash,
        }
    }
}

/// The rank of a component among those that can stand at one place: a
/// literal or the trailing slash comes before a capture, and a capture
/// before a wildcard.  The lower rank is tried first.
pub open spec fn rank(c: Component) -> u8 {
    match c {
        Component::Static(_) => 0,
        Component::Slash => 0,
        Component::Capture(_) => 1,
        Component::Wildcard(_) => 2,
    }
}

impl UriComponent {
    /// The rank of the component among those that can stand at one place.
    pub fn precedence(&self) -> (r: u8)
        ensures
            r == rank(self@),
    {
        match self {
            UriComponent::Static(_) => 0,
            UriComponent::Slash => 0,
            UriComponent::Capture(_) => 1,
            UriComponent::Wildcard(_) => 2,
        }
    }
}

/// Why a pattern was refused.
#[derive(Clone, Copy, Debug, PartialEq, Eq, Structural)]
pub enum PatternError {
    /// The pattern is neither `*` nor starts with `/`.
    MissingLeadingSlash,
    /// A literal segment is empty.
    EmptySegment,
    /// A capture or a wildcard has no name.
    EmptyName,
    /// A segment or a name holds `/`, `:` or `*`.
    InvalidCharacter,
    /// A capture name occurs twice in the pattern.
    DuplicateName,
    /// A component follows a wildcard.
    WildcardNotLast,
    /// A component follows the trailing slash.
    TrailingSlash,
    /// The pattern `*` cannot be extended.
    Asterisk,
}

/// A route pattern as a mathematical value.
pub struct UriView {
    /// Whether this is the pattern `*`, which has no components.
    pub asterisk: bool,
    /// The components, in order.  The root `/` has none.
    pub components: Seq<Component>,
}

/// Whether `s` holds one of the bytes `/`, `:` and `*`.
pub open spec fn has_reserved(s: Seq<u8>) -> bool {
    exists|i: int| 0 <= i < s.len() && is_reserved(#[trigger] s[i])
}

/// Whether `b` is `/`, `:` or `*`.
pub open spec fn is_reserved(b: u8) -> bool {
    b == 0x2f || b == 0x3a || b == 0x2a
}

/// The name that a component binds, if it binds one.
pub open spec fn name_of(c: Component) -> Option<Seq<u8>> {
    match c {
        Component::Capture(n) => Some(n),
        Component::Wildcard(n) => Some(n),
        _ => None,
    }
}

/// The names that the components bind, in order.
pub open spec fn capture_names(cs: Seq<Component>) -> Seq<Seq<u8>>
    decreases cs.len(),
{
    if cs.len() == 0 {
        Seq::empty()
    } else {
        match name_of(cs.last()) {
            Some(n) => capture_names(cs.drop_last()).push(n),
            None => capture_names(cs.drop_last()),
        }
    }
}

/// The first place from `from` on at which `names` holds `n`.
pub open spec fn first_index(names: Seq<Seq<u8>>, n: Seq<u8>, from: int) -> Option<int>
    decreases names.len() - from,
{
    if from < 0 || from >= names.len() {
        None
    } else if names[from] == n {
        Some(from)
    } else {
        first_index(names, n, from + 1)
    }
}

/// The text of one component.
pub open spec fn render_component(c: Component) -> Seq<u8> {
    match c {
        Component::Static(s) => seq![0x2fu8] + s,
        Component::Capture(n) => seq![0x2fu8, 0x3au8] + n,
        Component::Wildcard(n) => seq![0x2fu8, 0x2au8] + n,
        Component::Slash => seq![0x2fu8],
    }
}

/// The text of a sequence of components, one after the other.
pub open spec fn render_components(cs: Seq<Component>) -> Seq<u8>
    decreases cs.len(),
{
    if cs.len() == 0 {
        Seq::empty()
    } else {
        render_components(cs.drop_last()) + render_component(cs.last())
    }
}

impl UriView {
    /// The root pattern `/`.
    pub open spec fn root() -> UriView {
        UriView { asterisk: false, components: Seq::empty() }
    }

    /// The pattern `*`.
    pub open spec fn asterisk() -> UriView {
        UriView { asterisk: true, components: Seq::empty() }
    }

    /// The invariant of a pattern: literals and names are non-empty and free
    /// of reserved bytes, the trailing slash and the wildcard stand last, and
    /// no name is bound twice.
    pub open spec fn wf(self) -> bool {
        &&& self.asterisk ==> self.components.len() == 0
        &&& forall|i: int|
            0 <= i < self.components.len() ==> match #[trigger] self.components[i] {
                Component::Static(s) => s.len() > 0 && !has_reserved(s),
                Component::Capture(n) => n.len() > 0 && !has_reserved(n),
                Component::Wildcard(n) => n.len() > 0 && !has_reserved(n) && i
                    == self.components.len() - 1,
                Component::Slash => 0 < i && i == self.components.len() - 1,
            }
        &&& forall|i: int, j: int|
            0 <= i < j < self.components.len() && name_of(self.components[i]).is_some() ==> name_of(
                self.components[i],
            ) != name_of(self.components[j])
    }

    /// The text of the pattern.
    pub open spec fn render(self) -> Seq<u8> {
        if self.asterisk {
            seq![0x2au8]
        } else if self.components.len() == 0 {
            seq![0x2fu8]
        } else {
            render_components(self.components)
        }
    }

    /// The pattern with one more component, or the reason why the component
    /// cannot follow.  A slash after the root leaves the root.
    pub open spec fn push(self, c: Component) -> Result<UriView, PatternError> {
        if self.asterisk {
            Err(PatternError::Asterisk)
        } else if self.components.len() > 0 && self.components.last() is Wildcard {
            Err(PatternError::WildcardNotLast)
        } else if self.components.len() > 0 && self.components.last() is Slash {
            Err(PatternError::TrailingSlash)
        } else {
            match c {
                Component::Slash => if self.components.len() == 0 {
                    Ok(self)
                } else {
                    Ok(UriView { asterisk: false, components: self.components.push(c) })
                },
                Component::Static(s) => if s.len() == 0 {
                    Err(PatternError::EmptySegment)
                } else if has_reserved(s) {
                    Err(PatternError::InvalidCharacter)
                } else {
                    Ok(UriView { asterisk: false, components: self.components.push(c) })
                },
                Component::Capture(n) | Component::Wildcard(n) => if n.len() == 0 {
                    Err(PatternError::EmptyName)
                } else if has_reserved(n) {
                    Err(PatternError::InvalidCharacter)
                } else if capture_names(self.components).contains(n) {
                    Err(PatternError::DuplicateName)
                } else {
                    Ok(UriView { asterisk: false, components: self.components.push(c) })
                },
            }
        }
    }

    /// The pattern with all of `cs` pushed from index `from` on, or the first
    /// error on the way.
    pub open spec fn push_all(self, cs: Seq<Component>, from: int) -> Result<UriView, PatternError>
        decreases cs.len() - from,
    {
        if from < 0 || from >= cs.len() {
            Ok(self)
        } else {
            match self.push(cs[from]) {
                Ok(next) => next.push_all(cs, from + 1),
                Err(e) => Err(e),
            }
        }
    }

    /// The pattern without its trailing slash.
    pub open spec fn trim_slash(self) -> UriView {
        if self.components.len() > 0 && self.components.last() is Slash {
            UriView { asterisk: self.asterisk, components: self.components.drop_last() }
        } else {
            self
        }
    }

    /// This pattern followed by `other`.  The root is neutral on both sides,
    /// `*` joins with nothing, and a trailing slash of this pattern gives
    /// way to what follows.
    pub open spec fn join(self, other: UriView) -> Result<UriView, PatternError> {
        if self.asterisk || other.asterisk {
            Err(PatternError::Asterisk)
        } else if other.components.len() == 0 {
            Ok(self)
        } else {
            self.trim_slash().push_all(other.components, 0)
        }
    }
}

/// The component that a segment of pattern text stands for.
pub open spec fn classify(seg: Seq<u8>) -> Component {
    if seg.len() == 0 {
        Component::Slash
    } else if seg[0] == 0x3a {
        Component::Capture(seg.subrange(1, seg.len() as int))
    } else if seg[0] == 0x2a {
        Component::Wildcard(seg.subrange(1, seg.len() as int))
    } else {
        Component::Static(seg)
    }
}

/// Compiles the segments of `s` from `pos` on onto `acc`: each segment is
/// classified and pushed; an empty segment is the trailing slash only where
/// it is the last one.
pub open spec fn parse_from(s: Seq<u8>, pos: int, acc: UriView) -> Result<UriView, PatternError>
    decreases s.len() - pos,
{
    let e = seg_end(s, pos);
    if pos < 0 || pos > s.len() || e < pos || e > s.len() {
        Ok(acc)
    } else if e == pos && e < s.len() {
        Err(PatternError::EmptySegment)
    } else {
        match acc.push(classify(s.subrange(pos, e))) {
            Err(err) => Err(err),
            Ok(next) => if e >= s.len() {
                Ok(next)
            } else {
                parse_from(s, e + 1, next)
            },
        }
    }
}

/// What the pattern text `s` compiles to.
pub open spec fn parse_uri(s: Seq<u8>) -> Result<UriView, PatternError> {
    if s == seq![0x2au8] {
        Ok(UriView::asterisk())
    } else if s.len() == 0 || s[0] != 0x2f {
        Err(PatternError::MissingLeadingSlash)
    } else if s.len() == 1 {
        Ok(UriView::root())
    } else {
        parse_from(s, 1, UriView::root())
    }
}


/// `capture_names` holds exactly the names that some component binds.
pub proof fn lemma_capture_names_contains(cs: Seq<Component>, n: Seq<u8>)
    ensures
        capture_names(cs).contains(n) <==> exists|i: int|
            0 <= i < cs.len() && name_of(#[trigger] cs[i]) == Some(n),
    decreases cs.len(),
{
    if cs.len() > 0 {
        let init = cs.drop_last();
        lemma_capture_names_contains(init, n);
        let names = capture_names(init);
        if capture_names(cs).contains(n) {
            let k = choose|k: int| 0 <= k < capture_names(cs).len() && capture_names(cs)[k] == n;
            if name_of(cs.last()).is_some() && k == names.len() {
                assert(name_of(cs[cs.len() - 1]) == Some(n));
            } else {
                assert(names[k] == n);
                let i = choose|i: int| 0 <= i < init.len() && name_of(#[trigger] init[i]) == Some(n);
                assert(cs[i] == init[i]);
            }
        }
        if exists|i: int| 0 <= i < cs.len() && name_of(#[trigger] cs[i]) == Some(n) {
            let i = choose|i: int| 0 <= i < cs.len() && name_of(#[trigger] cs[i]) == Some(n);
            if i == cs.len() - 1 {
                assert(capture_names(cs) == names.push(n));
                assert(names.push(n)[names.len() as int] == n);
            } else {
                assert(init[i] == cs[i]);
                assert(names.contains(n));
                let k = choose|k: int| 0 <= k < names.len() && names[k] == n;
                assert(capture_names(cs)[k] == n);
            }
        }
    }
}

/// Pushing a component onto a well-formed pattern gives a well-formed
/// pattern.
pub proof fn lemma_push_wf(u: UriView, c: Component)
    requires
        u.wf(),
    ensures
        u.push(c) is Ok ==> u.push(c)->Ok_0.wf(),
{
    if u.push(c) is Ok {
        let v = u.push(c)->Ok_0;
        if v != u {
            assert(v.components == u.components.push(c));
            assert forall|i: int, j: int|
                0 <= i < j < v.components.len() && name_of(v.components[i]).is_some() implies name_of(
                v.components[i],
            ) != name_of(v.components[j]) by {
                if j == v.components.len() - 1 && name_of(c).is_some() {
                    let n = name_of(c)->Some_0;
                    lemma_capture_names_contains(u.components, n);
                    assert(u.components[i] == v.components[i]);
                } else {
                    assert(u.components[i] == v.components[i]);
                    if j < u.components.len() {
                        assert(u.components[j] == v.components[j]);
                    }
                }
            }
            assert forall|i: int| 0 <= i < v.components.len() implies match #[trigger] v.components[i] {
                Component::Static(s) => s.len() > 0 && !has_reserved(s),
                Component::Capture(n) => n.len() > 0 && !has_reserved(n),
                Component::Wildcard(n) => n.len() > 0 && !has_reserved(n) && i == v.components.len()
                    - 1,
                Component::Slash => 0 < i && i == v.components.len() - 1,
            } by {
                if i < u.components.len() {
                    assert(u.components[i] == v.components[i]);
                    if i == u.components.len() - 1 {
                        assert(u.components.last() == u.components[i]);
                    }
                }
            }
        }
    }
}

/// Pushing several components onto a well-formed pattern gives a
/// well-formed pattern that is not `*`.
pub proof fn lemma_push_all_wf(u: UriView, cs: Seq<Component>, from: int)
    requires
        u.wf(),
        !u.asterisk,
    ensures
        u.push_all(cs, from) is Ok ==> u.push_all(cs, from)->Ok_0.wf() && !u.push_all(
            cs,
            from,
        )->Ok_0.asterisk,
    decreases cs.len() - from,
{
    if 0 <= from < cs.len() {
        lemma_push_wf(u, cs[from]);
        if u.push(cs[from]) is Ok {
            lemma_push_all_wf(u.push(cs[from])->Ok_0, cs, from + 1);
        }
    }
}

/// A pattern that two well-formed patterns join to is well formed and is
/// not `*`.
pub proof fn lemma_join_wf(a: UriView, b: UriView)
    requires
        a.wf(),
    ensures
        a.join(b) is Ok ==> a.join(b)->Ok_0.wf() && !a.join(b)->Ok_0.asterisk,
{
    if a.join(b) is Ok && b.components.len() > 0 {
        let t = a.trim_slash();
        assert(t.wf()) by {
            if t != a {
                assert forall|i: int| 0 <= i < t.components.len() implies t.components[i]
                    == a.components[i] by {}
                assert forall|i: int| 0 <= i < t.components.len() implies match #[trigger] t.components[i] {
                    Component::Static(s) => s.len() > 0 && !has_reserved(s),
                    Component::Capture(n) => n.len() > 0 && !has_reserved(n),
                    Component::Wildcard(n) => n.len() > 0 && !has_reserved(n) && i
                        == t.components.len() - 1,
                    Component::Slash => 0 < i && i == t.components.len() - 1,
                } by {
                    assert(t.components[i] == a.components[i]);
                }
                assert forall|i: int, j: int|
                    0 <= i < j < t.components.len() && name_of(t.components[i]).is_some() implies name_of(
                    t.components[i],
                ) != name_of(t.components[j]) by {
                    assert(t.components[i] == a.components[i]);
                    assert(t.components[j] == a.components[j]);
                }
            }
        }
        lemma_push_all_wf(t, b.components, 0);
    }
}

/// Whether `s` holds `/`, `:` or `*`.
fn contains_reserved(s: &[u8]) -> (r: bool)
    ensures
        r == has_reserved(s@),
{
    let mut i: usize = 0;
    while i < s.len()
        invariant
            i <= s@.len(),
            forall|j: int| 0 <= j < i ==> !is_reserved(#[trigger] s@[j]),
        decreases s@.len() - i,
    {
        let b = s[i];
        if b == 0x2f || b == 0x3a || b == 0x2a {
            assert(is_reserved(s@[i as int]));
            return true;
        }
        i = i + 1;
    }
    false
}

impl Clone for UriComponent {
    fn clone(&self) -> (r: Self)
        ensures
            r@ == self@,
    {
        match self {
            UriComponent::Static(s) => UriComponent::Static(copy_bytes(s.as_slice())),
            UriComponent::Capture(s) => UriComponent::Capture(copy_bytes(s.as_slice())),
            UriComponent::Wildcard(s) => UriComponent::Wildcard(copy_bytes(s.as_slice())),
            UriComponent::Slash => UriComponent::Slash,
        }
    }
}

/// A compiled route pattern.
#[derive(Debug)]
pub struct Uri {
    asterisk: bool,
    components: Vec<UriComponent>,
}

impl View for Uri {
    type V = UriView;

    closed spec fn view(&self) -> UriView {
        UriView {
            asterisk: self.asterisk,
            components: Seq::new(self.components@.len(), |i: int| self.components@[i]@),
        }
    }
}

impl Uri {
    /// The root pattern `/`.
    pub fn root() -> (u: Uri)
        ensures
            u@ == UriView::root(),
            u@.wf(),
    {
        let u = Uri { asterisk: false, components: Vec::new() };
        assert(u@.components =~= Seq::empty());
        u
    }

    /// The pattern `*`, which stands for the whole server.
    pub fn asterisk() -> (u: Uri)
        ensures
            u@ == UriView::asterisk(),
            u@.wf(),
    {
        let u = Uri { asterisk: true, components: Vec::new() };
        assert(u@.components =~= Seq::empty());
        u
    }

    /// Whether this is the pattern `*`.
    pub fn is_asterisk(&self) -> (b: bool)
        ensures
            b == self@.asterisk,
    {
        self.asterisk
    }

    /// The number of components.
    pub fn len(&self) -> (n: usize)
        ensures
            n == self@.components.len(),
    {
        self.components.len()
    }

    /// The component at `i`.
    pub fn component(&self, i: usize) -> (c: &UriComponent)
        requires
            i < self@.components.len(),
        ensures
            c@ == self@.components[i as int],
    {
        &self.components[i]
    }

    /// Whether some component binds `name`.
    fn binds(&self, name: &[u8]) -> (b: bool)
        ensures
            b == capture_names(self@.components).contains(name@),
    {
        let mut i: usize = 0;
        while i < self.components.len()
            invariant
                i <= self.components@.len(),
                forall|j: int| 0 <= j < i ==> name_of(#[trigger] self@.components[j]) != Some(name@),
            decreases self.components@.len() - i,
        {
            let found = match &self.components[i] {
                UriComponent::Capture(n) => bytes_eq(n.as_slice(), name),
                UriComponent::Wildcard(n) => bytes_eq(n.as_slice(), name),
                _ => false,
            };
            if found {
                proof {
                    assert(name_of(self@.components[i as int]) == Some(name@));
                    lemma_capture_names_contains(self@.components, name@);
                }
                return true;
            }
            i = i + 1;
        }
        proof {
            lemma_capture_names_contains(self@.components, name@);
        }
        false
    }

    /// Appends a component.  On an error the pattern is left as it was.
    pub fn push(&mut self, c: UriComponent) -> (r: Result<(), PatternError>)
        ensures
            match old(self)@.push(c@) {
                Ok(u) => r is Ok && final(self)@ == u,
                Err(e) => r == Err::<(), PatternError>(e) && final(self)@ == old(self)@,
            },
            old(self)@.wf() ==> final(self)@.wf(),
    {
        proof {
            if self@.wf() {
                lemma_push_wf(self@, c@);
            }
        }
        if self.asterisk {
            return Err(PatternError::Asterisk);
        }
        let n = self.components.len();
        if n > 0 {
            assert(self@.components.last() == self.components@[n - 1]@);
            match &self.components[n - 1] {
                UriComponent::Wildcard(_) => {
                    return Err(PatternError::WildcardNotLast);
                },
                UriComponent::Slash => {
                    return Err(PatternError::TrailingSlash);
                },
                _ => {},
            }
        }
        match &c {
            UriComponent::Slash => {
                if n == 0 {
                    return Ok(());
                }
            },
            UriComponent::Static(s) => {
                if s.len() == 0 {
                    return Err(PatternError::EmptySegment);
                }
                if contains_reserved(s.as_slice()) {
                    return Err(PatternError::InvalidCharacter);
                }
            },
            UriComponent::Capture(name) => {
                if name.len() == 0 {
                    return Err(PatternError::EmptyName);
                }
                if contains_reserved(name.as_slice()) {
                    return Err(PatternError::InvalidCharacter);
                }
                if self.binds(name.as_slice()) {
                    return Err(PatternError::DuplicateName);
                }
            },
            UriComponent::Wildcard(name) => {
                if name.len() == 0 {
                    return Err(PatternError::EmptyName);
                }
                if contains_reserved(name.as_slice()) {
                    return Err(PatternError::InvalidCharacter);
                }
                if self.binds(name.as_slice()) {
                    return Err(PatternError::DuplicateName);
                }
            },
        }
        self.components.push(c);
        assert(self@.components =~= old(self)@.components.push(c@));
        Ok(())
    }

    /// Compiles pattern text.
    pub fn parse(s: &str) -> (r: Result<Uri, PatternError>)
        ensures
            match parse_uri(s.spec_bytes()) {
                Ok(u) => r is Ok && r->Ok_0@ == u && u.wf(),
                Err(e) => r is Err && r->Err_0 == e,
            },
    {
        Self::from_bytes(s.as_bytes())
    }

    /// Compiles pattern text given as bytes.
    pub fn from_bytes(s: &[u8]) -> (r: Result<Uri, PatternError>)
        ensures
            match parse_uri(s@) {
                Ok(u) => r is Ok && r->Ok_0@ == u && u.wf(),
                Err(e) => r is Err && r->Err_0 == e,
            },
    {
        if s.len() == 1 && s[0] == 0x2a {
            assert(s@ =~= seq![0x2au8]);
            return Ok(Uri::asterisk());
        }
        assert(s@ != seq![0x2au8]) by {
            if s@ == seq![0x2au8] {
                assert(seq![0x2au8].len() == 1);
                assert(seq![0x2au8][0] == 0x2au8);
            }
        }
        if s.len() == 0 || s[0] != 0x2f {
            return Err(PatternError::MissingLeadingSlash);
        }
        if s.len() == 1 {
            return Ok(Uri::root());
        }
        let mut uri = Uri::root();
        let mut pos: usize = 1;
        loop
            invariant
                1 <= pos <= s@.len(),
                uri@.wf(),
                parse_uri(s@) == parse_from(s@, pos as int, uri@),
            decreases s@.len() - pos,
        {
            let e = find_seg_end(s, pos);
            if e == pos && e < s.len() {
                return Err(PatternError::EmptySegment);
            }
            let c = classify_segment(s, pos, e);
            match uri.push(c) {
                Err(err) => {
                    return Err(err);
                },
                Ok(()) => {},
            }
            if e >= s.len() {
                return Ok(uri);
            }
            pos = e + 1;
        }
    }

    /// This pattern followed by `other`.
    pub fn join(&self, other: &Uri) -> (r: Result<Uri, PatternError>)
        ensures
            match self@.join(other@) {
                Ok(u) => r is Ok && r->Ok_0@ == u,
                Err(e) => r is Err && r->Err_0 == e,
            },
            self@.wf() && r is Ok ==> r->Ok_0@.wf(),
    {
        if self.asterisk || other.asterisk {
            return Err(PatternError::Asterisk);
        }
        let mut u = self.clone();
        if other.components.len() == 0 {
            return Ok(u);
        }
        let n = u.components.len();
        if n > 0 {
            assert(u@.components.last() == u.components@[n - 1]@);
            let slash = match &u.components[n - 1] {
                UriComponent::Slash => true,
                _ => false,
            };
            if slash {
                u.components.pop();
                assert(u@.components =~= self@.components.drop_last());
                assert(self@.wf() ==> u@.wf()) by {
                    if self@.wf() {
                        assert forall|i: int| 0 <= i < u@.components.len() implies self@.components[i]
                            == #[trigger] u@.components[i] by {}
                        assert forall|i: int| 0 <= i < u@.components.len() implies !(
                        #[trigger] u@.components[i] is Wildcard) && !(u@.components[i] is Slash) by {
                            assert(self@.components[i] == u@.components[i]);
                        }
                    }
                }
            }
        }
        assert(u@ == self@.trim_slash());
        let mut i: usize = 0;
        while i < other.components.len()
            invariant
                i <= other.components@.len(),
                other@.components.len() == other.components@.len(),
                self@.join(other@) == u@.push_all(other@.components, i as int),
                self@.wf() ==> u@.wf(),
            decreases other.components@.len() - i,
        {
            let c = other.components[i].clone();
            assert(c@ == other@.components[i as int]);
            match u.push(c) {
                Err(err) => {
                    return Err(err);
                },
                Ok(()) => {},
            }
            i = i + 1;
        }
        Ok(u)
    }

    /// The text of the pattern.
    pub fn render(&self) -> (v: Vec<u8>)
        ensures
            v@ == self@.render(),
    {
        let mut v: Vec<u8> = Vec::new();
        if self.asterisk {
            v.push(0x2a);
            assert(v@ =~= seq![0x2au8]);
            return v;
        }
        if self.components.len() == 0 {
            v.push(0x2f);
            assert(v@ =~= seq![0x2fu8]);
            return v;
        }
        let mut i: usize = 0;
        assert(self@.components.take(0) =~= Seq::empty());
        while i < self.components.len()
            invariant
                i <= self.components@.len(),
                self@.components.len() == self.components@.len(),
                v@ == render_components(self@.components.take(i as int)),
            decreases self.components@.len() - i,
        {
            proof {
                let t = self@.components.take(i + 1);
                assert(t.drop_last() =~= self@.components.take(i as int));
                assert(t.last() == self@.components[i as int]);
            }
            let ghost before = v@;
            v.push(0x2f);
            match &self.components[i] {
                UriComponent::Static(s) => {
                    append_bytes(&mut v, s.as_slice());
                    assert(v@ =~= before + (seq![0x2fu8] + s@));
                },
                UriComponent::Capture(n) => {
                    v.push(0x3a);
                    append_bytes(&mut v, n.as_slice());
                    assert(v@ =~= before + (seq![0x2fu8, 0x3au8] + n@));
                },
                UriComponent::Wildcard(n) => {
                    v.push(0x2a);
                    append_bytes(&mut v, n.as_slice());
                    assert(v@ =~= before + (seq![0x2fu8, 0x2au8] + n@));
                },
                UriComponent::Slash => {
                    assert(v@ =~= before + seq![0x2fu8]);
                },
            }
            i = i + 1;
        }
        assert(self@.components.take(i as int) =~= self@.components);
        v
    }

    /// The index of `name` among the names that the pattern binds.
    pub fn position(&self, name: &[u8]) -> (r: Option<usize>)
        ensures
            match r {
                Some(k) => k < capture_names(self@.components).len() && capture_names(
                    self@.components,
                )[k as int] == name@ && forall|j: int|
                    0 <= j < k ==> capture_names(self@.components)[j] != name@,
                None => !capture_names(self@.components).contains(name@),
            },
            match first_index(capture_names(self@.components), name@, 0) {
                Some(k) => r.is_some() && r->Some_0 == k,
                None => r.is_none(),
            },
    {
        let mut i: usize = 0;
        let mut k: usize = 0;
        assert(self@.components.take(0) =~= Seq::empty());
        while i < self.components.len()
            invariant
                i <= self.components@.len(),
                self@.components.len() == self.components@.len(),
                k <= i,
                k == capture_names(self@.components.take(i as int)).len(),
                k <= capture_names(self@.components).len(),
                first_index(capture_names(self@.components), name@, 0) == first_index(
                    capture_names(self@.components),
                    name@,
                    k as int,
                ),
                forall|j: int| 0 <= j < k ==> capture_names(self@.components.take(i as int))[j] != name@,
            decreases self.components@.len() - i,
        {
            proof {
                let t = self@.components.take(i + 1);
                assert(t.drop_last() =~= self@.components.take(i as int));
                assert(t.last() == self@.components[i as int]);
                lemma_capture_names_prefix(self@.components, i + 1);
            }
            let ghost names = capture_names(self@.components);
            let ghost upto = capture_names(self@.components.take(i + 1));
            let ghost before = capture_names(self@.components.take(i as int));
            assert(forall|j: int| 0 <= j < upto.len() ==> upto[j] == names[j]);
            match &self.components[i] {
                UriComponent::Capture(n) => {
                    assert(upto == before.push(n@));
                    assert(forall|j: int| 0 <= j < k ==> upto[j] == before[j]);
                    if bytes_eq(n.as_slice(), name) {
                        assert(upto[k as int] == name@);
                        return Some(k);
                    }
                    k = k + 1;
                },
                UriComponent::Wildcard(n) => {
                    assert(upto == before.push(n@));
                    assert(forall|j: int| 0 <= j < k ==> upto[j] == before[j]);
                    if bytes_eq(n.as_slice(), name) {
                        assert(upto[k as int] == name@);
                        return Some(k);
                    }
                    k = k + 1;
                },
                _ => {},
            }
            i = i + 1;
        }
        assert(self@.components.take(i as int) =~= self@.components);
        None
    }

    /// Whether the pattern binds a name.
    pub fn has_captures(&self) -> (b: bool)
        ensures
            b == (capture_names(self@.components).len() > 0),
    {
        let mut i: usize = 0;
        assert(self@.components.take(0) =~= Seq::empty());
        while i < self.components.len()
            invariant
                i <= self.components@.len(),
                self@.components.len() == self.components@.len(),
                capture_names(self@.components.take(i as int)).len() == 0,
            decreases self.components@.len() - i,
        {
            proof {
                let t = self@.components.take(i + 1);
                assert(t.drop_last() =~= self@.components.take(i as int));
                assert(t.last() == self@.components[i as int]);
                lemma_capture_names_prefix(self@.components, i + 1);
            }
            match &self.components[i] {
                UriComponent::Capture(_) => {
                    return true;
                },
                UriComponent::Wildcard(_) => {
                    return true;
                },
                _ => {},
            }
            i = i + 1;
        }
        assert(self@.components.take(i as int) =~= self@.components);
        false
    }
}

impl Clone for Uri {
    fn clone(&self) -> (r: Self)
        ensures
            r@ == self@,
    {
        let mut components: Vec<UriComponent> = Vec::new();
        let mut i: usize = 0;
        while i < self.components.len()
            invariant
                i <= self.components@.len(),
                components@.len() == i,
                forall|j: int| 0 <= j < i ==> components@[j]@ == self.components@[j]@,
            decreases self.components@.len() - i,
        {
            components.push(self.components[i].clone());
            i = i + 1;
        }
        let r = Uri { asterisk: self.asterisk, components };
        assert(r@.components =~= self@.components);
        r
    }
}

/// The names bound by the first `i` components are the first names bound by
/// all of them.
pub proof fn lemma_capture_names_prefix(cs: Seq<Component>, i: int)
    requires
        0 <= i <= cs.len(),
    ensures
        capture_names(cs.take(i)).is_prefix_of(capture_names(cs)),
    decreases cs.len(),
{
    if i == cs.len() {
        assert(cs.take(i) =~= cs);
    } else {
        assert(cs.take(i) =~= cs.drop_last().take(i));
        lemma_capture_names_prefix(cs.drop_last(), i);
    }
}

/// The component that the segment `s[from..to]` stands for.
fn classify_segment(s: &[u8], from: usize, to: usize) -> (c: UriComponent)
    requires
        from <= to <= s@.len(),
    ensures
        c@ == classify(s@.subrange(from as int, to as int)),
{
    let ghost seg = s@.subrange(from as int, to as int);
    if from == to {
        UriComponent::Slash
    } else if s[from] == 0x3a {
        let n = copy_range(s, from + 1, to);
        assert(n@ =~= seg.subrange(1, seg.len() as int));
        UriComponent::Capture(n)
    } else if s[from] == 0x2a {
        let n = copy_range(s, from + 1, to);
        assert(n@ =~= seg.subrange(1, seg.len() as int));
        UriComponent::Wildcard(n)
    } else {
        UriComponent::Static(copy_range(s, from, to))
    }
}

/// The text of a component after its `/`.
pub open spec fn body_of(c: Component) -> Seq<u8> {
    match c {
        Component::Static(s) => s,
        Component::Capture(n) => seq![0x3au8] + n,
        Component::Wildcard(n) => seq![0x2au8] + n,
        Component::Slash => Seq::empty(),
    }
}

/// The text of the first `i` components starts the text of all of them.
pub proof fn lemma_render_prefix(cs: Seq<Component>, i: int)
    requires
        0 <= i <= cs.len(),
    ensures
        render_components(cs.take(i)).is_prefix_of(render_components(cs)),
    decreases cs.len(),
{
    if i == cs.len() {
        assert(cs.take(i) =~= cs);
    } else {
        assert(cs.take(i) =~= cs.drop_last().take(i));
        lemma_render_prefix(cs.drop_last(), i);
    }
}

/// Where component `i` of a well-formed pattern stands in the text of the
/// pattern: its body follows a `/`, holds no `/`, and is followed by a `/`
/// or by the end.
pub proof fn lemma_render_segment(u: UriView, i: int)
    requires
        u.wf(),
        0 <= i < u.components.len(),
    ensures
        ({
            let path = render_components(u.components);
            let start = (render_components(u.components.take(i)).len() + 1) as int;
            let body = body_of(u.components[i]);
            &&& start + body.len() <= path.len()
            &&& path[start - 1] == 0x2f
            &&& path.subrange(start, start + body.len()) == body
            &&& forall|k: int| start <= k < start + body.len() ==> path[k] != 0x2f
            &&& render_components(u.components.take(i + 1)).len() == start + body.len()
            &&& i == u.components.len() - 1 ==> path.len() == start + body.len()
            &&& i < u.components.len() - 1 ==> start + body.len() < path.len() && path[start
                + body.len()] == 0x2f
        }),
{
    let cs = u.components;
    let path = render_components(cs);
    let before = render_components(cs.take(i));
    let upto = render_components(cs.take(i + 1));
    let body = body_of(cs[i]);
    let start = (before.len() + 1) as int;
    assert(cs.take(i + 1).drop_last() =~= cs.take(i));
    assert(cs.take(i + 1).last() == cs[i]);
    assert(render_component(cs[i]) =~= seq![0x2fu8] + body);
    assert(upto =~= before + (seq![0x2fu8] + body));
    lemma_render_prefix(cs, i + 1);
    assert(path[start - 1] == upto[start - 1]);
    assert(path.subrange(start, start + body.len()) =~= body) by {
        assert forall|k: int| 0 <= k < body.len() implies path[start + k] == body[k] by {
            assert(path[start + k] == upto[start + k]);
        }
    }
    assert forall|k: int| start <= k < start + body.len() implies path[k] != 0x2f by {
        assert(path[k] == upto[k]);
        assert(upto[k] == body[k - start]);
        match cs[i] {
            Component::Static(s) => {
                if s[k - start] == 0x2f {
                    assert(is_reserved(s[k - start]));
                }
            },
            Component::Capture(n) => {
                if k > start && n[k - start - 1] == 0x2f {
                    assert(is_reserved(n[k - start - 1]));
                }
            },
            Component::Wildcard(n) => {
                if k > start && n[k - start - 1] == 0x2f {
                    assert(is_reserved(n[k - start - 1]));
                }
            },
            Component::Slash => {},
        }
    }
    if i == cs.len() - 1 {
        assert(cs.take(i + 1) =~= cs);
    } else {
        let next = render_components(cs.take(i + 2));
        assert(cs.take(i + 2).drop_last() =~= cs.take(i + 1));
        assert(cs.take(i + 2).last() == cs[i + 1]);
        assert(render_component(cs[i + 1]) =~= seq![0x2fu8] + body_of(cs[i + 1]));
        assert(next =~= upto + (seq![0x2fu8] + body_of(cs[i + 1])));
        lemma_render_prefix(cs, i + 2);
        assert(path[upto.len() as int] == next[upto.len() as int]);
    }
}

/// The body of a component of a well-formed pattern is classified as that
/// component.
pub proof fn lemma_classify_body(u: UriView, i: int)
    requires
        u.wf(),
        0 <= i < u.components.len(),
    ensures
        classify(body_of(u.components[i])) == u.components[i],
        u.components[i] is Slash <==> body_of(u.components[i]).len() == 0,
{
    let c = u.components[i];
    let body = body_of(c);
    match c {
        Component::Static(s) => {
            assert(s.len() > 0);
            if s[0] == 0x3a || s[0] == 0x2a {
                assert(is_reserved(s[0]));
            }
        },
        Component::Capture(n) => {
            assert(body[0] == 0x3a);
            assert(body.subrange(1, body.len() as int) =~= n);
        },
        Component::Wildcard(n) => {
            assert(body[0] == 0x2a);
            assert(body.subrange(1, body.len() as int) =~= n);
        },
        Component::Slash => {},
    }
}

/// Compiling the text of a well-formed pattern from its component `i` on,
/// onto the components before it, gives the pattern.
pub proof fn lemma_parse_from_render(u: UriView, i: int)
    requires
        u.wf(),
        !u.asterisk,
        0 <= i < u.components.len(),
    ensures
        parse_from(
            render_components(u.components),
            (render_components(u.components.take(i)).len() + 1) as int,
            UriView { asterisk: false, components: u.components.take(i) },
        ) == Ok::<UriView, PatternError>(u),
    decreases u.components.len() - i,
{
    let cs = u.components;
    let n = cs.len() as int;
    let path = render_components(cs);
    let pos = (render_components(cs.take(i)).len() + 1) as int;
    let acc = UriView { asterisk: false, components: cs.take(i) };
    let c = cs[i];
    let body = body_of(c);
    let e = (pos + body.len()) as int;
    lemma_render_segment(u, i);
    lemma_seg_end_unique(path, pos, e);
    lemma_classify_body(u, i);
    assert(acc.components.len() == i);
    if i > 0 {
        assert(acc.components.last() == cs[i - 1]);
        assert(!(cs[i - 1] is Wildcard) && !(cs[i - 1] is Slash));
    }
    if let Some(name) = name_of(c) {
        lemma_capture_names_contains(acc.components, name);
        if capture_names(acc.components).contains(name) {
            let j = choose|j: int|
                0 <= j < acc.components.len() && name_of(#[trigger] acc.components[j]) == Some(name);
            assert(acc.components[j] == cs[j]);
            assert(name_of(cs[j]) != name_of(cs[i]));
        }
    }
    let next = UriView { asterisk: false, components: cs.take(i + 1) };
    assert(acc.components.push(c) =~= cs.take(i + 1));
    assert(acc.push(c) == Ok::<UriView, PatternError>(next));
    if i == n - 1 {
        assert(cs.take(i + 1) =~= cs);
        assert(next == u);
    } else {
        lemma_parse_from_render(u, i + 1);
    }
}

/// Compiling the text of a well-formed pattern gives the pattern back.
pub proof fn lemma_parse_render(u: UriView)
    requires
        u.wf(),
    ensures
        parse_uri(u.render()) == Ok::<UriView, PatternError>(u),
{
    let s = u.render();
    if u.asterisk {
        assert(u.components =~= Seq::empty());
        assert(u == UriView::asterisk());
    } else if u.components.len() == 0 {
        assert(u.components =~= Seq::empty());
        assert(u == UriView::root());
        assert(s[0] == 0x2f);
        assert(s != seq![0x2au8]) by {
            assert(seq![0x2au8][0] == 0x2a);
        }
    } else {
        assert(u.components.take(0) =~= Seq::empty());
        lemma_render_segment(u, 0);
        lemma_classify_body(u, 0);
        assert(s.len() >= 2);
        assert(s != seq![0x2au8]) by {
            assert(seq![0x2au8].len() == 1);
        }
        lemma_parse_from_render(u, 0);
        assert(UriView { asterisk: false, components: u.components.take(0) } == UriView::root());
    }
}

/// The text of the component that a segment is classified as is the
/// segment after a `/`.
pub proof fn lemma_render_classified(seg: Seq<u8>)
    ensures
        render_component(classify(seg)) == seq![0x2fu8] + seg,
{
    if seg.len() == 0 {
        assert(seq![0x2fu8] =~= seq![0x2fu8] + seg);
    } else if seg[0] == 0x3a {
        assert(seq![0x2fu8, 0x3au8] + seg.subrange(1, seg.len() as int) =~= seq![0x2fu8] + seg);
    } else if seg[0] == 0x2a {
        assert(seq![0x2fu8, 0x2au8] + seg.subrange(1, seg.len() as int) =~= seq![0x2fu8] + seg);
    }
}

/// What compiles from `pos` on onto a well-formed pattern whose text, with
/// a `/` after it, is the text before `pos`, is a well-formed pattern with
/// the whole text.
pub proof fn lemma_parse_from_sound(s: Seq<u8>, pos: int, acc: UriView)
    requires
        acc.wf(),
        !acc.asterisk,
        1 <= pos <= s.len(),
        s.len() >= 2,
        render_components(acc.components) + seq![0x2fu8] == s.subrange(0, pos),
        parse_from(s, pos, acc) is Ok,
    ensures
        parse_from(s, pos, acc)->Ok_0.wf(),
        !parse_from(s, pos, acc)->Ok_0.asterisk,
        parse_from(s, pos, acc)->Ok_0.components.len() > 0,
        render_components(parse_from(s, pos, acc)->Ok_0.components) == s,
    decreases s.len() - pos,
{
    lemma_seg_end(s, pos);
    let e = seg_end(s, pos);
    let seg = s.subrange(pos, e);
    let c = classify(seg);
    lemma_push_wf(acc, c);
    lemma_render_classified(seg);
    let next = acc.push(c)->Ok_0;
    let before = render_components(acc.components);
    assert(before.len() + 1 == pos) by {
        assert((before + seq![0x2fu8]).len() == s.subrange(0, pos).len());
    }
    if c is Slash {
        // An empty segment is the last one, and does not follow the root.
        assert(e == pos && e == s.len());
        assert(acc.components.len() > 0);
    }
    assert(next.components == acc.components.push(c));
    assert(next.components.drop_last() =~= acc.components);
    assert(render_components(next.components) =~= before + (seq![0x2fu8] + seg));
    assert(render_components(next.components) =~= s.subrange(0, e)) by {
        assert forall|k: int| 0 <= k < e implies render_components(next.components)[k] == s[k] by {
            if k < pos {
                assert((before + seq![0x2fu8])[k] == s.subrange(0, pos)[k]);
            } else {
                assert(seg[k - pos] == s[k]);
            }
        }
    }
    if e >= s.len() {
        assert(s.subrange(0, e) =~= s);
    } else {
        assert(render_components(next.components) + seq![0x2fu8] =~= s.subrange(0, e + 1));
        lemma_parse_from_sound(s, e + 1, next);
    }
}

/// A text that compiles is the text of what it compiles to, and that is a
/// well-formed pattern.  With `lemma_parse_render` this says that compiling
/// and rendering undo each other.
pub proof fn lemma_render_parse(s: Seq<u8>)
    requires
        parse_uri(s) is Ok,
    ensures
        parse_uri(s)->Ok_0.wf(),
        parse_uri(s)->Ok_0.render() == s,
{
    if s == seq![0x2au8] {
    } else if s.len() == 1 {
        assert(s =~= seq![0x2fu8]);
    } else {
        assert(render_components(UriView::root().components) + seq![0x2fu8] =~= s.subrange(0, 1));
        lemma_parse_from_sound(s, 1, UriView::root());
    }
}

} // verus!
