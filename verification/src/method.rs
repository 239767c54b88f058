//! HTTP request methods and sets of them.

use vstd::prelude::*;
use vstd::string::StringExecFns;

verus! {

/// An HTTP request method.
///
/// The nine registered methods are told apart; every other method token is an
/// `Extension`, which only a route that accepts all methods can serve.
#[derive(Clone, Copy, Debug, PartialEq, Eq, Structural)]
pub enum Method {
    Get,
    Head,
    Post,
    Put,
    Delete,
    Connect,
    Options,
    Trace,
    Patch,
    Extension,
}

/// A set of registered HTTP methods.
#[derive(Clone, Copy, Debug, PartialEq, Eq, Structural)]
pub struct AllowedMethods {
    get: bool,
    head: bool,
    post: bool,
    put: bool,
    delete: bool,
    connect: bool,
    options: bool,
    trace: bool,
    patch: bool,
}

impl View for AllowedMethods {
    type V = Set<Method>;

    closed spec fn view(&self) -> Set<Method> {
        Set::new(|m: Method| self.has(m))
    }
}

impl AllowedMethods {
    /// Membership, by case on the method.
    pub closed spec fn has(self, m: Method) -> bool {
        match m {
            Method::Get => self.get,
            Method::Head => self.head,
            Method::Post => self.post,
            Method::Put => self.put,
            Method::Delete => self.delete,
            Method::Connect => self.connect,
            Method::Options => self.options,
            Method::Trace => self.trace,
            Method::Patch => self.patch,
            Method::Extension => false,
        }
    }

    /// The view holds exactly the methods that `has` accepts.
    pub broadcast proof fn lemma_view_has(self, m: Method)
        ensures
            #[trigger] self@.contains(m) == self.has(m),
    {
    }

    /// The empty set.
    pub fn empty() -> (s: Self)
        ensures
            s@ == Set::<Method>::empty(),
    {
        let s = AllowedMethods {
            get: false,
            head: false,
            post: false,
            put: false,
            delete: false,
            connect: false,
            options: false,
            trace: false,
            patch: false,
        };
        assert(s@ =~= Set::<Method>::empty());
        s
    }

    /// The set with `m` added.  An `Extension` is never a member, so adding
    /// one changes nothing.
    pub fn with(self, m: Method) -> (s: Self)
        ensures
            s@ == (if m == Method::Extension { self@ } else { self@.insert(m) }),
    {
        let mut s = self;
        match m {
            Method::Get => { s.get = true; }
            Method::Head => { s.head = true; }
            Method::Post => { s.post = true; }
            Method::Put => { s.put = true; }
            Method::Delete => { s.delete = true; }
            Method::Connect => { s.connect = true; }
            Method::Options => { s.options = true; }
            Method::Trace => { s.trace = true; }
            Method::Patch => { s.patch = true; }
            Method::Extension => {}
        }
        assert(s@ =~= (if m == Method::Extension { self@ } else { self@.insert(m) }));
        s
    }

    /// The set that holds `m` alone.
    pub fn single(m: Method) -> (s: Self)
        ensures
            s@ == (if m == Method::Extension { Set::<Method>::empty() } else { set![m] }),
    {
        let s = Self::empty().with(m);
        assert(s@ =~= (if m == Method::Extension { Set::<Method>::empty() } else { set![m] }));
        s
    }

    /// Whether `m` is a member.
    pub fn contains(&self, m: Method) -> (b: bool)
        ensures
            b == self@.contains(m),
    {
        match m {
            Method::Get => self.get,
            Method::Head => self.head,
            Method::Post => self.post,
            Method::Put => self.put,
            Method::Delete => self.delete,
            Method::Connect => self.connect,
            Method::Options => self.options,
            Method::Trace => self.trace,
            Method::Patch => self.patch,
            Method::Extension => false,
        }
    }

    /// Whether the set has no member.
    pub fn is_empty(&self) -> (b: bool)
        ensures
            b == (self@ == Set::<Method>::empty()),
    {
        let b = !(self.get || self.head || self.post || self.put || self.delete || self.connect
            || self.options || self.trace || self.patch);
        proof {
            if b {
                assert(self@ =~= Set::<Method>::empty());
            } else {
                let m = if self.get { Method::Get } else if self.head { Method::Head }
                    else if self.post { Method::Post } else if self.put { Method::Put }
                    else if self.delete { Method::Delete } else if self.connect { Method::Connect }
                    else if self.options { Method::Options } else if self.trace { Method::Trace }
                    else { Method::Patch };
                assert(self@.contains(m));
            }
        }
        b
    }

    /// The union of two sets.
    pub fn union(self, other: Self) -> (s: Self)
        ensures
            s@ == self@.union(other@),
    {
        let s = AllowedMethods {
            get: self.get || other.get,
            head: self.head || other.head,
            post: self.post || other.post,
            put: self.put || other.put,
            delete: self.delete || other.delete,
            connect: self.connect || other.connect,
            options: self.options || other.options,
            trace: self.trace || other.trace,
            patch: self.patch || other.patch,
        };
        assert(s@ =~= self@.union(other@));
        s
    }

    /// Whether the two sets share a member.
    pub fn intersects(&self, other: &Self) -> (b: bool)
        ensures
            b == !self@.disjoint(other@),
    {
        let b = (self.get && other.get) || (self.head && other.head) || (self.post && other.post)
            || (self.put && other.put) || (self.delete && other.delete) || (self.connect
            && other.connect) || (self.options && other.options) || (self.trace && other.trace) || (
        self.patch && other.patch);
        proof {
            if b {
                let m = if self.get && other.get { Method::Get }
                    else if self.head && other.head { Method::Head }
                    else if self.post && other.post { Method::Post }
                    else if self.put && other.put { Method::Put }
                    else if self.delete && other.delete { Method::Delete }
                    else if self.connect && other.connect { Method::Connect }
                    else if self.options && other.options { Method::Options }
                    else if self.trace && other.trace { Method::Trace }
                    else { Method::Patch };
                assert(self@.contains(m) && other@.contains(m));
            } else {
                assert forall|m: Method| !(self@.contains(m) && other@.contains(m)) by {}
            }
        }
        b
    }
}

/// The registered methods in the order in which a list of methods names
/// them.
pub open spec fn method_at(i: int) -> Method {
    if i == 0 {
        Method::Get
    } else if i == 1 {
        Method::Head
    } else if i == 2 {
        Method::Post
    } else if i == 3 {
        Method::Put
    } else if i == 4 {
        Method::Delete
    } else if i == 5 {
        Method::Connect
    } else if i == 6 {
        Method::Options
    } else if i == 7 {
        Method::Trace
    } else {
        Method::Patch
    }
}

/// The name of a registered method.  An extension has none.
pub open spec fn method_name(m: Method) -> Seq<char> {
    match m {
        Method::Get => "GET"@,
        Method::Head => "HEAD"@,
        Method::Post => "POST"@,
        Method::Put => "PUT"@,
        Method::Delete => "DELETE"@,
        Method::Connect => "CONNECT"@,
        Method::Options => "OPTIONS"@,
        Method::Trace => "TRACE"@,
        Method::Patch => "PATCH"@,
        Method::Extension => Seq::empty(),
    }
}

/// Whether `set` holds one of the first `n` registered methods.
pub open spec fn any_member(set: Set<Method>, n: int) -> bool {
    exists|k: int| 0 <= k < n && set.contains(#[trigger] method_at(k))
}

/// The names of the members of `set` among the first `n` registered
/// methods, separated by a comma and a space.
pub open spec fn allow_text(set: Set<Method>, n: int) -> Seq<char>
    decreases n,
{
    if n <= 0 {
        Seq::empty()
    } else {
        let prev = allow_text(set, n - 1);
        let m = method_at(n - 1);
        if !set.contains(m) {
            prev
        } else if any_member(set, n - 1) {
            prev + ", "@ + method_name(m)
        } else {
            method_name(m)
        }
    }
}

impl Method {
    /// The `i`-th registered method.
    pub fn nth(i: usize) -> (m: Method)
        ensures
            m == method_at(i as int),
    {
        if i == 0 {
            Method::Get
        } else if i == 1 {
            Method::Head
        } else if i == 2 {
            Method::Post
        } else if i == 3 {
            Method::Put
        } else if i == 4 {
            Method::Delete
        } else if i == 5 {
            Method::Connect
        } else if i == 6 {
            Method::Options
        } else if i == 7 {
            Method::Trace
        } else {
            Method::Patch
        }
    }

    /// The name of the method; an extension has the empty name.
    pub fn as_str(&self) -> (s: &'static str)
        ensures
            s@ == method_name(*self),
    {
        match self {
            Method::Get => "GET",
            Method::Head => "HEAD",
            Method::Post => "POST",
            Method::Put => "PUT",
            Method::Delete => "DELETE",
            Method::Connect => "CONNECT",
            Method::Options => "OPTIONS",
            Method::Trace => "TRACE",
            Method::Patch => "PATCH",
            Method::Extension => {
                let s = "";
                proof {
                    reveal_strlit("");
                }
                assert(s@ =~= Seq::empty());
                s
            },
        }
    }
}

impl AllowedMethods {
    /// The value of an `Allow` header that names the members: `GET, HEAD`
    /// for the set of these two.
    pub fn render(&self) -> (s: String)
        ensures
            s@ == allow_text(self@, 9),
    {
        let mut s = String::new();
        let mut any = false;
        let mut i: usize = 0;
        while i < 9
            invariant
                i <= 9,
                s@ == allow_text(self@, i as int),
                any == any_member(self@, i as int),
            decreases 9 - i,
        {
            let m = Method::nth(i);
            if self.contains(m) {
                if any {
                    s.append(", ");
                }
                s.append(m.as_str());
                proof {
                    if !any {
                        lemma_allow_text_empty(self@, i as int);
                        assert(s@ =~= method_name(m));
                    }
                }
                any = true;
                assert(self@.contains(method_at(i as int)));
            } else {
                proof {
                    if any_member(self@, i + 1) {
                        let k = choose|k: int| 0 <= k < i + 1 && self@.contains(#[trigger] method_at(k));
                        assert(k < i);
                    }
                }
            }
            i = i + 1;
        }
        s
    }
}

/// With none of the first `n` methods in the set, no name is listed.
pub proof fn lemma_allow_text_empty(set: Set<Method>, n: int)
    requires
        !any_member(set, n),
    ensures
        allow_text(set, n).len() == 0,
    decreases n,
{
    if n > 0 {
        assert(!set.contains(method_at(n - 1)));
        assert(!any_member(set, n - 1)) by {
            if any_member(set, n - 1) {
                let k = choose|k: int| 0 <= k < n - 1 && set.contains(#[trigger] method_at(k));
                assert(0 <= k < n && set.contains(method_at(k)));
            }
        }
        lemma_allow_text_empty(set, n - 1);
    }
}

} // verus!
