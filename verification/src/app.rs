//! The endpoint table and the resolver: from a recognized path and a method
//! to the handler to run, or to the right fallback.

use vstd::prelude::*;
use vstd::string::StringSliceAdditionalSpecFns;
use crate::bytes::starts_with;
use crate::method::{AllowedMethods, Method};
use crate::recognizer::{
    ids_at, key_of, recognize_path, wildcard_shadowed, Captures, CapturesView, Edge, PathMatch,
    Recognized, Recognizer,
};
use crate::scope::{ancestors_of, chain_of, lemma_chain, parents_wf, Parents, ScopeId, Scopes};
use crate::uri::{PatternError, Uri};

verus! {

/// What a scope carries.
pub struct ScopeData<H, M, S> {
    /// The pattern under which the scope is mounted, from the root.
    pub prefix: Uri,
    /// The modifiers of the scope, in the order of their registration.
    pub modifiers: Vec<M>,
    /// The handler for requests that match no route of the scope.
    pub default_handler: Option<H>,
    /// The state that the scope sets, each value under its key.
    pub states: Vec<(u64, S)>,
}

/// One registered route.
pub struct Endpoint<H> {
    /// The identifier: the number of routes registered before this one.
    pub id: usize,
    /// The scope that the route was registered in.
    pub scope: ScopeId,
    /// The scopes from the root down to `scope`, with `scope` last.
    pub ancestors: Vec<ScopeId>,
    /// The full pattern, from the root.
    pub uri: Uri,
    /// The methods that the route serves; `None` stands for every method.
    pub allowed_methods: Option<AllowedMethods>,
    /// The handler.
    pub handler: H,
}

/// The assembled application as a mathematical value.
pub struct AppView<H, M, S> {
    /// The key of each registered route.
    pub keys: Seq<Seq<Edge>>,
    /// The parent of each scope.
    pub parents: Parents,
    /// What each scope carries.
    pub scopes: Seq<ScopeData<H, M, S>>,
    /// The registered routes.
    pub endpoints: Seq<Endpoint<H>>,
    /// Whether `HEAD` is served by a `GET` route where no route serves it.
    pub fallback_head: bool,
    /// Whether `OPTIONS` is answered where no route serves it.
    pub fallback_options: bool,
}

/// Whether a route with the methods `allowed` serves `m`.
pub open spec fn accepts(allowed: Option<AllowedMethods>, m: Method) -> bool {
    match allowed {
        None => true,
        Some(s) => s@.contains(m),
    }
}

/// Whether two routes on one path would both serve some method.
pub open spec fn overlapping(a: Option<AllowedMethods>, b: Option<AllowedMethods>) -> bool {
    match (a, b) {
        (Some(x), Some(y)) => !x@.disjoint(y@),
        _ => true,
    }
}

/// The first of `ids[from..]` whose route serves `m`.
pub open spec fn first_accepting<H>(
    endpoints: Seq<Endpoint<H>>,
    ids: Seq<usize>,
    m: Method,
    from: int,
) -> Option<usize>
    decreases ids.len() - from,
{
    if from < 0 || from >= ids.len() {
        None
    } else if ids[from] < endpoints.len() && accepts(
        endpoints[ids[from] as int].allowed_methods,
        m,
    ) {
        Some(ids[from])
    } else {
        first_accepting(endpoints, ids, m, from + 1)
    }
}

/// The methods that the routes `ids[..n]` name.
pub open spec fn allowed_union<H>(endpoints: Seq<Endpoint<H>>, ids: Seq<usize>, n: int) -> Set<
    Method,
>
    decreases n,
{
    if n <= 0 || n > ids.len() {
        Set::empty()
    } else {
        let rest = allowed_union(endpoints, ids, n - 1);
        if ids[n - 1] < endpoints.len() {
            match endpoints[ids[n - 1] as int].allowed_methods {
                Some(s) => rest.union(s@),
                None => rest,
            }
        } else {
            rest
        }
    }
}

/// The first position from `from` on at which `a` and `b` differ or one of
/// them ends.
pub open spec fn common_len(a: Seq<ScopeId>, b: Seq<ScopeId>, from: int) -> int
    decreases a.len() - from,
{
    if 0 <= from < a.len() && from < b.len() && a[from] == b[from] {
        common_len(a, b, from + 1)
    } else {
        from
    }
}

/// The longest chain of scopes that the ancestors of all of the routes
/// `candidates[..n]` start with.  Identifiers of no route are passed over;
/// with no route there is no chain.
pub open spec fn shared_chain<H>(endpoints: Seq<Endpoint<H>>, candidates: Seq<usize>, n: int) -> Option<
    Seq<ScopeId>,
>
    decreases n,
{
    if n <= 0 || n > candidates.len() {
        None
    } else {
        let prev = shared_chain(endpoints, candidates, n - 1);
        let id = candidates[n - 1];
        if id >= endpoints.len() {
            prev
        } else {
            let own = endpoints[id as int].ancestors@;
            match prev {
                None => Some(own),
                Some(c) => Some(c.take(common_len(c, own, 0))),
            }
        }
    }
}

/// The outcome of resolving a path and a method, as a mathematical value.
pub enum RecognizeView {
    /// A route serves the path and the method.
    Matched { endpoint: usize, captures: CapturesView },
    /// Routes are registered on the path, and none serves the method.
    MethodNotAllowed { endpoints: Seq<usize>, allowed: Set<Method>, captures: CapturesView },
    /// The path led into the tree and ended where no route is registered.
    PartiallyMatched { candidates: Seq<usize> },
    /// The path matched nothing.
    NotMatched,
}

/// What is to be done when no handler of a route runs.
pub enum FallbackView {
    /// Answer `OPTIONS` with the methods that the path serves.
    Options { allow: Set<Method> },
    /// Refuse the method and name the methods that the path serves.
    MethodNotAllowed { allow: Set<Method> },
    /// Run the default handler that scope `owner` has set.
    Default { owner: ScopeId },
}

/// The decision on a request, as a mathematical value.
pub enum DispatchView {
    /// Run the handler of a route.
    RunHandler { endpoint: usize, captures: CapturesView },
    /// Run a fallback under the modifiers of `scope`.
    RunFallback { scope: ScopeId, fallback: FallbackView },
    /// Nothing serves the request; `scope` is where it was placed.
    NotFound { scope: ScopeId },
}

impl<H, M, S> AppView<H, M, S> {
    /// The invariant of an application: the scopes form a tree, and every
    /// route is filed under the key of its pattern, knows its scope and the
    /// scopes above it, and shares no method with another route on its key.
    pub open spec fn wf(self) -> bool {
        &&& parents_wf(self.parents)
        &&& self.scopes.len() == self.parents.len()
        &&& self.endpoints.len() == self.keys.len()
        &&& forall|s: int| 0 <= s < self.scopes.len() ==> (#[trigger] self.scopes[s]).prefix@.wf()
        &&& forall|i: int|
            0 <= i < self.endpoints.len() ==> {
                let e = #[trigger] self.endpoints[i];
                &&& e.id == i
                &&& e.scope.0 < self.scopes.len()
                &&& e.ancestors@ == chain_of(self.parents, e.scope.0 as int)
                &&& e.uri@.wf()
                &&& key_of(e.uri@) == self.keys[i]
            }
        &&& forall|i: int, j: int|
            0 <= i < j < self.endpoints.len() && self.keys[i] == self.keys[j] ==> !overlapping(
                (#[trigger] self.endpoints[i]).allowed_methods,
                (#[trigger] self.endpoints[j]).allowed_methods,
            )
    }

    /// The methods that the routes `ids` serve between them: those that they
    /// name, and `HEAD` where `GET` is among them and stands in for it.
    pub open spec fn allow_set(self, ids: Seq<usize>) -> Set<Method> {
        let named = allowed_union(self.endpoints, ids, ids.len() as int);
        if self.fallback_head && named.contains(Method::Get) {
            named.insert(Method::Head)
        } else {
            named
        }
    }

    /// What resolving `path` and `method` gives.  Among the routes on the
    /// path the first that serves the method is matched; `HEAD` falls back
    /// on the route that serves `GET` where that is enabled.
    pub open spec fn resolve(self, path: Seq<u8>, method: Method) -> RecognizeView {
        match recognize_path(self.keys, path) {
            PathMatch::Found { ids, captures } => match first_accepting(
                self.endpoints,
                ids,
                method,
                0,
            ) {
                Some(id) => RecognizeView::Matched { endpoint: id, captures },
                None => match first_accepting(self.endpoints, ids, Method::Get, 0) {
                    Some(id) if method == Method::Head && self.fallback_head => RecognizeView::Matched {
                        endpoint: id,
                        captures,
                    },
                    _ => RecognizeView::MethodNotAllowed {
                        endpoints: ids,
                        allowed: self.allow_set(ids),
                        captures,
                    },
                },
            },
            PathMatch::PartiallyMatched { candidates } => RecognizeView::PartiallyMatched {
                candidates,
            },
            PathMatch::NotMatched => RecognizeView::NotMatched,
        }
    }

    /// Whether the prefix of scope `s` is a prefix of `path`.
    pub open spec fn prefix_matches(self, s: ScopeId, path: Seq<u8>) -> bool {
        s.0 < self.scopes.len() && self.scopes[s.0 as int].prefix@.render().is_prefix_of(path)
    }

    /// The innermost of `chain[..k]` whose prefix is a prefix of `path`; the
    /// innermost scope of the chain if there is none; the root if the chain
    /// is empty.
    pub open spec fn pick_scope(self, chain: Seq<ScopeId>, path: Seq<u8>, k: int) -> ScopeId
        decreases k,
    {
        if k <= 0 || k > chain.len() {
            if chain.len() > 0 {
                chain.last()
            } else {
                ScopeId(0)
            }
        } else if self.prefix_matches(chain[k - 1], path) {
            chain[k - 1]
        } else {
            self.pick_scope(chain, path, k - 1)
        }
    }

    /// The scope that an unmatched request for `path` belongs to, given the
    /// routes that came close: the root if there are none.
    pub open spec fn infer_scope(self, path: Seq<u8>, candidates: Seq<usize>) -> ScopeId {
        match shared_chain(self.endpoints, candidates, candidates.len() as int) {
            None => ScopeId(0),
            Some(chain) => self.pick_scope(chain, path, chain.len() as int),
        }
    }

    /// The nearest scope from `i` towards the root that has set a default
    /// handler.
    pub open spec fn default_owner(self, i: int) -> Option<int>
        decreases i,
    {
        if i < 0 || i >= self.scopes.len() || i >= self.parents.len() {
            None
        } else if self.scopes[i].default_handler.is_some() {
            Some(i)
        } else {
            match self.parents[i] {
                Some(p) => if 0 <= p < i {
                    self.default_owner(p)
                } else {
                    None
                },
                None => None,
            }
        }
    }

    /// The decision for a request that no route serves and that belongs to
    /// scope `s`.
    pub open spec fn fallback_for(self, s: ScopeId) -> DispatchView {
        match self.default_owner(s.0 as int) {
            Some(o) => DispatchView::RunFallback {
                scope: s,
                fallback: FallbackView::Default { owner: ScopeId(o as usize) },
            },
            None => DispatchView::NotFound { scope: s },
        }
    }

    /// Whether the decision `d` names a route and scopes of this
    /// application.
    pub open spec fn admits(self, d: DispatchView) -> bool {
        match d {
            DispatchView::RunHandler { endpoint, .. } => endpoint < self.endpoints.len(),
            DispatchView::RunFallback { scope, fallback } => scope.0 < self.scopes.len() && (
            fallback matches FallbackView::Default { owner } ==> owner.0 < self.scopes.len()
                && self.scopes[owner.0 as int].default_handler.is_some()),
            DispatchView::NotFound { scope } => scope.0 < self.scopes.len(),
        }
    }

    /// The scope whose modifiers apply to the decision `d`: that of the
    /// route, or the scope in which the request was placed.
    pub open spec fn scope_of(self, d: DispatchView) -> ScopeId {
        match d {
            DispatchView::RunHandler { endpoint, .. } => self.endpoints[endpoint as int].scope,
            DispatchView::RunFallback { scope, .. } => scope,
            DispatchView::NotFound { scope } => scope,
        }
    }

    /// The decision that follows from an outcome of `resolve`.  A match
    /// runs its handler.  A method that the routes on the path do not serve
    /// is answered under the scope that is inferred from these routes: as
    /// implicit `OPTIONS` where that is asked for and enabled, and as a
    /// refusal otherwise.  A request that matches nothing, or only in part,
    /// is placed in the root, or in the scope that is inferred from the
    /// candidates, and goes to the nearest default handler from there, if
    /// there is one.
    pub open spec fn decide(self, r: RecognizeView, path: Seq<u8>, method: Method) -> DispatchView {
        match r {
            RecognizeView::Matched { endpoint, captures } => DispatchView::RunHandler {
                endpoint,
                captures,
            },
            RecognizeView::MethodNotAllowed { endpoints, allowed, captures } => DispatchView::RunFallback {
                scope: self.infer_scope(path, endpoints),
                fallback: if method == Method::Options && self.fallback_options {
                    FallbackView::Options { allow: allowed }
                } else {
                    FallbackView::MethodNotAllowed { allow: allowed }
                },
            },
            RecognizeView::PartiallyMatched { candidates } => self.fallback_for(
                self.infer_scope(path, candidates),
            ),
            RecognizeView::NotMatched => self.fallback_for(ScopeId(0)),
        }
    }
}

/// A route that `first_accepting` finds is a route of the application.
pub proof fn lemma_first_accepting<H>(
    endpoints: Seq<Endpoint<H>>,
    ids: Seq<usize>,
    m: Method,
    from: int,
)
    ensures
        first_accepting(endpoints, ids, m, from) matches Some(id) ==> id < endpoints.len()
            && ids.contains(id) && accepts(endpoints[id as int].allowed_methods, m),
        first_accepting(endpoints, ids, m, from).is_none() ==> forall|t: int|
            0 <= from <= t < ids.len() && (#[trigger] ids[t]) < endpoints.len() ==> !accepts(
                endpoints[ids[t] as int].allowed_methods,
                m,
            ),
    decreases ids.len() - from,
{
    if 0 <= from < ids.len() {
        lemma_first_accepting(endpoints, ids, m, from + 1);
    }
}

/// The outcome of resolving a path and a method.
pub enum Recognize<'a> {
    /// A route serves the path and the method.
    Matched { endpoint: usize, captures: Captures },
    /// Routes are registered on the path, and none serves the method.
    MethodNotAllowed { endpoints: &'a Vec<usize>, allowed: AllowedMethods, captures: Captures },
    /// The path led into the tree and ended where no route is registered.
    PartiallyMatched { candidates: &'a Vec<usize> },
    /// The path matched nothing.
    NotMatched,
}

impl<'a> View for Recognize<'a> {
    type V = RecognizeView;

    open spec fn view(&self) -> RecognizeView {
        match self {
            Recognize::Matched { endpoint, captures } => RecognizeView::Matched {
                endpoint: *endpoint,
                captures: captures@,
            },
            Recognize::MethodNotAllowed { endpoints, allowed, captures } => RecognizeView::MethodNotAllowed {
                endpoints: endpoints@,
                allowed: allowed@,
                captures: captures@,
            },
            Recognize::PartiallyMatched { candidates } => RecognizeView::PartiallyMatched {
                candidates: candidates@,
            },
            Recognize::NotMatched => RecognizeView::NotMatched,
        }
    }
}

/// What is to be done when no handler of a route runs.
#[derive(Clone, Copy, Debug)]
pub enum Fallback {
    /// Answer `OPTIONS` with the methods that the path serves.
    Options { allow: AllowedMethods },
    /// Refuse the method and name the methods that the path serves.
    MethodNotAllowed { allow: AllowedMethods },
    /// Run the default handler that scope `owner` has set.
    Default { owner: ScopeId },
}

impl View for Fallback {
    type V = FallbackView;

    open spec fn view(&self) -> FallbackView {
        match self {
            Fallback::Options { allow } => FallbackView::Options { allow: allow@ },
            Fallback::MethodNotAllowed { allow } => FallbackView::MethodNotAllowed { allow: allow@ },
            Fallback::Default { owner } => FallbackView::Default { owner: *owner },
        }
    }
}

/// The decision on a request.
#[derive(Debug)]
pub enum Dispatch {
    /// Run the handler of a route.
    RunHandler { endpoint: usize, captures: Captures },
    /// Run a fallback under the modifiers of `scope`.
    RunFallback { scope: ScopeId, fallback: Fallback },
    /// Nothing serves the request; `scope` is where it was placed.
    NotFound { scope: ScopeId },
}

impl View for Dispatch {
    type V = DispatchView;

    open spec fn view(&self) -> DispatchView {
        match self {
            Dispatch::RunHandler { endpoint, captures } => DispatchView::RunHandler {
                endpoint: *endpoint,
                captures: captures@,
            },
            Dispatch::RunFallback { scope, fallback } => DispatchView::RunFallback {
                scope: *scope,
                fallback: fallback@,
            },
            Dispatch::NotFound { scope } => DispatchView::NotFound { scope: *scope },
        }
    }
}

/// The policies of an application.
#[derive(Clone, Copy, Debug)]
pub struct Config {
    /// Whether `HEAD` is served by a `GET` route where no route serves it.
    pub fallback_head: bool,
    /// Whether `OPTIONS` is answered where no route serves it.
    pub fallback_options: bool,
}

/// The assembled routing data of an application.
pub struct AppInner<H, M, S> {
    recognizer: Recognizer,
    scopes: Scopes<ScopeData<H, M, S>>,
    endpoints: Vec<Endpoint<H>>,
    config: Config,
}

impl<H, M, S> View for AppInner<H, M, S> {
    type V = AppView<H, M, S>;

    closed spec fn view(&self) -> AppView<H, M, S> {
        AppView {
            keys: self.recognizer@,
            parents: self.scopes.parents(),
            scopes: Seq::new(self.scopes.spec_len(), |i: int| self.scopes.data(i)),
            endpoints: self.endpoints@,
            fallback_head: self.config.fallback_head,
            fallback_options: self.config.fallback_options,
        }
    }
}

/// The length of the longest common prefix of `c[..n]` and `own`.
fn common_prefix_len(c: &Vec<ScopeId>, n: usize, own: &Vec<ScopeId>) -> (r: usize)
    requires
        n <= c@.len(),
    ensures
        r == common_len(c@.take(n as int), own@, 0),
        r <= n,
{
    let mut j: usize = 0;
    while j < n && j < own.len() && c[j] == own[j]
        invariant
            j <= n <= c@.len(),
            common_len(c@.take(n as int), own@, 0) == common_len(c@.take(n as int), own@, j as int),
        decreases n - j,
    {
        assert(c@.take(n as int)[j as int] == c@[j as int]);
        j = j + 1;
    }
    proof {
        if j < n {
            assert(c@.take(n as int)[j as int] == c@[j as int]);
        }
    }
    j
}

impl<H, M, S> AppInner<H, M, S> {
    /// The invariant of the routing data.
    pub closed spec fn wf(&self) -> bool {
        &&& self.recognizer.wf()
        &&& self.scopes.wf()
        &&& self@.wf()
    }

    /// The view of a well-formed application is well formed.
    pub proof fn lemma_view_wf(&self)
        requires
            self.wf(),
        ensures
            self@.wf(),
    {
    }

    /// A scope that carries something else leaves the application well
    /// formed, as long as the tree of scopes, the prefixes and the routes
    /// stay.
    proof fn lemma_scope_data_changed(&self, before: &Self)
        requires
            before.wf(),
            self.recognizer == before.recognizer,
            self.endpoints == before.endpoints,
            self.config == before.config,
            self.scopes.items().len() == before.scopes.items().len(),
            forall|i: int|
                0 <= i < before.scopes.items().len() ==> (#[trigger] self.scopes.items()[i]).id
                    == before.scopes.items()[i].id && self.scopes.items()[i].parent
                    == before.scopes.items()[i].parent && self.scopes.items()[i].ancestors
                    == before.scopes.items()[i].ancestors && self.scopes.items()[i].data.prefix
                    == before.scopes.items()[i].data.prefix,
        ensures
            self.wf(),
            self@.parents == before@.parents,
    {
        assert(self@.parents =~= before@.parents);
        assert forall|s: int| 0 <= s < self@.scopes.len() implies (#[trigger] self@.scopes[s]).prefix@.wf() by {
            assert(before@.scopes[s].prefix@.wf());
        }
        assert forall|i: int| 0 <= i < self.scopes.items().len() implies (
        #[trigger] self.scopes.items()[i]).id == ScopeId(i as usize)
            && self.scopes.items()[i].ancestors@ == ancestors_of(self.scopes.parents(), i) by {
            assert(before.scopes.items()[i].id == ScopeId(i as usize));
        }
    }

    /// The number of scopes.
    pub fn num_scopes(&self) -> (n: usize)
        ensures
            n == self@.scopes.len(),
    {
        self.scopes.len()
    }

    /// The number of registered routes.
    pub fn num_endpoints(&self) -> (n: usize)
        ensures
            n == self@.endpoints.len(),
    {
        self.endpoints.len()
    }

    /// What scope `id` carries.
    pub fn scope(&self, id: ScopeId) -> (s: &ScopeData<H, M, S>)
        requires
            id.0 < self@.scopes.len(),
        ensures
            *s == self@.scopes[id.0 as int],
    {
        &self.scopes.get(id).data
    }

    /// The scopes above scope `id`, from the root down to its parent.
    pub fn ancestors(&self, id: ScopeId) -> (a: &Vec<ScopeId>)
        requires
            self.wf(),
            id.0 < self@.scopes.len(),
        ensures
            a@ == ancestors_of(self@.parents, id.0 as int),
    {
        self.scopes.get(id).ancestors()
    }

    /// The route with identifier `id`.
    pub fn endpoint(&self, id: usize) -> (e: &Endpoint<H>)
        requires
            id < self@.endpoints.len(),
        ensures
            *e == self@.endpoints[id as int],
    {
        &self.endpoints[id]
    }

    /// The first of `ids` whose route serves `m`.
    fn first_serving(&self, ids: &Vec<usize>, m: Method) -> (r: Option<usize>)
        ensures
            r == first_accepting(self@.endpoints, ids@, m, 0),
            r matches Some(id) ==> id < self@.endpoints.len(),
    {
        let mut i: usize = 0;
        while i < ids.len()
            invariant
                i <= ids@.len(),
                first_accepting(self@.endpoints, ids@, m, 0) == first_accepting(
                    self@.endpoints,
                    ids@,
                    m,
                    i as int,
                ),
            decreases ids@.len() - i,
        {
            let id = ids[i];
            if id < self.endpoints.len() {
                let serves = match &self.endpoints[id].allowed_methods {
                    None => true,
                    Some(s) => s.contains(m),
                };
                if serves {
                    return Some(id);
                }
            }
            i = i + 1;
        }
        None
    }

    /// The methods that the routes `ids` serve between them.
    fn allowed(&self, ids: &Vec<usize>) -> (r: AllowedMethods)
        ensures
            r@ == self@.allow_set(ids@),
    {
        let mut named = AllowedMethods::empty();
        let mut i: usize = 0;
        while i < ids.len()
            invariant
                i <= ids@.len(),
                named@ == allowed_union(self@.endpoints, ids@, i as int),
            decreases ids@.len() - i,
        {
            let id = ids[i];
            if id < self.endpoints.len() {
                match &self.endpoints[id].allowed_methods {
                    Some(s) => {
                        named = named.union(*s);
                    },
                    None => {},
                }
            }
            i = i + 1;
        }
        if self.config.fallback_head && named.contains(Method::Get) {
            named.with(Method::Head)
        } else {
            named
        }
    }

    /// Resolves a path and a method against the registered routes.
    pub fn recognize<'a>(&'a self, path: &str, method: Method) -> (r: Recognize<'a>)
        requires
            self.wf(),
        ensures
            r@ == self@.resolve(path.spec_bytes(), method),
            r matches Recognize::Matched { endpoint, .. } ==> endpoint < self@.endpoints.len(),
    {
        match self.recognizer.recognize(path.as_bytes()) {
            Recognized::Found { ids, captures } => {
                match self.first_serving(ids, method) {
                    Some(id) => Recognize::Matched { endpoint: id, captures },
                    None => {
                        if method == Method::Head && self.config.fallback_head {
                            match self.first_serving(ids, Method::Get) {
                                Some(id) => {
                                    return Recognize::Matched { endpoint: id, captures };
                                },
                                None => {},
                            }
                        }
                        let allowed = self.allowed(ids);
                        Recognize::MethodNotAllowed { endpoints: ids, allowed, captures }
                    },
                }
            },
            Recognized::PartiallyMatched { candidates } => Recognize::PartiallyMatched {
                candidates,
            },
            Recognized::NotMatched => Recognize::NotMatched,
        }
    }

    /// Infers the scope that an unmatched request belongs to from the
    /// routes that came close.
    pub fn infer_scope(&self, path: &str, candidates: &Vec<usize>) -> (s: ScopeId)
        requires
            self.wf(),
        ensures
            s == self@.infer_scope(path.spec_bytes(), candidates@),
            s.0 < self@.scopes.len(),
    {
        let mut first: Option<usize> = None;
        let mut n: usize = 0;
        let mut i: usize = 0;
        while i < candidates.len()
            invariant
                i <= candidates@.len(),
                match first {
                    None => shared_chain(self@.endpoints, candidates@, i as int).is_none(),
                    Some(f) => f < self@.endpoints.len() && n <= self@.endpoints[f as int].ancestors@.len()
                        && shared_chain(self@.endpoints, candidates@, i as int) == Some(
                        self@.endpoints[f as int].ancestors@.take(n as int),
                    ),
                },
            decreases candidates@.len() - i,
        {
            let id = candidates[i];
            if id < self.endpoints.len() {
                match first {
                    None => {
                        first = Some(id);
                        n = self.endpoints[id].ancestors.len();
                        assert(self@.endpoints[id as int].ancestors@.take(n as int)
                            =~= self@.endpoints[id as int].ancestors@);
                    },
                    Some(f) => {
                        let ghost c = self@.endpoints[f as int].ancestors@.take(n as int);
                        let m = common_prefix_len(
                            &self.endpoints[f].ancestors,
                            n,
                            &self.endpoints[id].ancestors,
                        );
                        assert(c.take(m as int) =~= self@.endpoints[f as int].ancestors@.take(
                            m as int,
                        ));
                        n = m;
                    },
                }
            }
            i = i + 1;
        }
        match first {
            None => {
                assert(parents_wf(self@.parents));
                ScopeId::root()
            },
            Some(f) => {
                let all = &self.endpoints[f].ancestors;
                let ghost chain = all@.take(n as int);
                proof {
                    let e = self@.endpoints[f as int];
                    lemma_chain(self@.parents, e.scope.0 as int);
                    assert forall|k: int| 0 <= k < chain.len() implies (#[trigger] chain[k]).0
                        < self@.scopes.len() by {
                        assert(chain[k] == chain_of(self@.parents, e.scope.0 as int)[k]);
                    }
                }
                let bytes = path.as_bytes();
                let mut k: usize = n;
                while k > 0
                    invariant
                        k <= n <= all@.len(),
                        chain == all@.take(n as int),
                        bytes@ == path.spec_bytes(),
                        forall|t: int| 0 <= t < chain.len() ==> (#[trigger] chain[t]).0
                            < self@.scopes.len(),
                        self@.infer_scope(path.spec_bytes(), candidates@) == self@.pick_scope(
                            chain,
                            bytes@,
                            n as int,
                        ),
                        self@.pick_scope(chain, bytes@, n as int) == self@.pick_scope(
                            chain,
                            bytes@,
                            k as int,
                        ),
                    decreases k,
                {
                    let s = all[k - 1];
                    assert(chain[k - 1] == s);
                    assert(self@.scopes[s.0 as int] == self.scopes.data(s.0 as int));
                    let text = self.scopes.get(s).data.prefix.render();
                    if starts_with(bytes, text.as_slice()) {
                        assert(self@.prefix_matches(s, bytes@));
                        return s;
                    }
                    assert(!self@.prefix_matches(s, bytes@));
                    k = k - 1;
                }
                if n > 0 {
                    assert(chain.last() == all@[n - 1]);
                    assert(chain[n - 1] == all@[n - 1]);
                    all[n - 1]
                } else {
                    assert(parents_wf(self@.parents));
                    ScopeId::root()
                }
            },
        }
    }

    /// The nearest scope from `start` towards the root that has set a
    /// default handler.
    pub fn default_owner(&self, start: ScopeId) -> (r: Option<ScopeId>)
        requires
            self.wf(),
            start.0 < self@.scopes.len(),
        ensures
            match self@.default_owner(start.0 as int) {
                Some(o) => r == Some(ScopeId(o as usize)) && r->Some_0.0 == o && 0 <= o
                    < self@.scopes.len() && self@.scopes[o].default_handler.is_some(),
                None => r.is_none(),
            },
    {
        let mut cur = start;
        loop
            invariant
                self.wf(),
                cur.0 < self@.scopes.len(),
                self@.default_owner(start.0 as int) == self@.default_owner(cur.0 as int),
            decreases cur.0,
        {
            let scope = self.scopes.get(cur);
            if scope.data.default_handler.is_some() {
                return Some(cur);
            }
            assert(self@.parents[cur.0 as int] == match scope.parent {
                Some(p) => Some(p.0 as int),
                None => None,
            });
            match scope.parent() {
                Some(p) => {
                    assert(cur.0 > 0);
                    cur = p;
                },
                None => {
                    return None;
                },
            }
        }
    }

    /// The default handler that applies in scope `start`: its own, or that
    /// of the nearest scope above it that has one.
    pub fn find_default_handler(&self, start: ScopeId) -> (r: Option<&H>)
        requires
            self.wf(),
            start.0 < self@.scopes.len(),
        ensures
            match self@.default_owner(start.0 as int) {
                Some(o) => r == Some(&self@.scopes[o].default_handler->Some_0),
                None => r.is_none(),
            },
    {
        match self.default_owner(start) {
            Some(o) => {
                assert(self@.scopes[o.0 as int] == self.scopes.data(o.0 as int));
                let h = self.scopes.get(o).data.default_handler.as_ref();
                assert(h.is_some());
                assert(*h->Some_0 == self@.scopes[o.0 as int].default_handler->Some_0);
                h
            },
            None => None,
        }
    }

    /// Matches a path, and places the request in a scope where no route is
    /// registered on the path.
    pub fn find_endpoint<'a>(&'a self, path: &str) -> (r: Result<(&'a Vec<usize>, Captures), ScopeId>)
        requires
            self.wf(),
        ensures
            match recognize_path(self@.keys, path.spec_bytes()) {
                PathMatch::Found { ids, captures } => r is Ok && r->Ok_0.0@ == ids && r->Ok_0.1@
                    == captures,
                PathMatch::PartiallyMatched { candidates } => r == Err::<
                    (&'a Vec<usize>, Captures),
                    ScopeId,
                >(self@.infer_scope(path.spec_bytes(), candidates)),
                PathMatch::NotMatched => r == Err::<(&'a Vec<usize>, Captures), ScopeId>(ScopeId(0)),
            },
            r matches Err(s) ==> s.0 < self@.scopes.len(),
    {
        match self.recognizer.recognize(path.as_bytes()) {
            Recognized::Found { ids, captures } => Ok((ids, captures)),
            Recognized::PartiallyMatched { candidates } => Err(self.infer_scope(path, candidates)),
            Recognized::NotMatched => {
                assert(parents_wf(self@.parents));
                Err(ScopeId::root())
            },
        }
    }

    /// The decision for a request that no route serves and that belongs to
    /// scope `s`.
    fn fallback_in(&self, s: ScopeId) -> (d: Dispatch)
        requires
            self.wf(),
            s.0 < self@.scopes.len(),
        ensures
            d@ == self@.fallback_for(s),
            self@.admits(d@),
    {
        match self.default_owner(s) {
            Some(o) => Dispatch::RunFallback { scope: s, fallback: Fallback::Default { owner: o } },
            None => Dispatch::NotFound { scope: s },
        }
    }

    /// Turns an outcome of `recognize` into the decision on the request.
    pub fn dispatch(&self, r: Recognize<'_>, path: &str, method: Method) -> (d: Dispatch)
        requires
            self.wf(),
        ensures
            d@ == self@.decide(r@, path.spec_bytes(), method),
            (r matches Recognize::Matched { endpoint, .. } ==> endpoint < self@.endpoints.len())
                ==> self@.admits(d@),
    {
        match r {
            Recognize::Matched { endpoint, captures } => Dispatch::RunHandler { endpoint, captures },
            Recognize::MethodNotAllowed { endpoints, allowed, captures } => {
                let scope = self.infer_scope(path, endpoints);
                if method == Method::Options && self.config.fallback_options {
                    Dispatch::RunFallback { scope, fallback: Fallback::Options { allow: allowed } }
                } else {
                    Dispatch::RunFallback {
                        scope,
                        fallback: Fallback::MethodNotAllowed { allow: allowed },
                    }
                }
            },
            Recognize::PartiallyMatched { candidates } => {
                let scope = self.infer_scope(path, candidates);
                self.fallback_in(scope)
            },
            Recognize::NotMatched => {
                assert(parents_wf(self@.parents));
                self.fallback_in(ScopeId::root())
            },
        }
    }

    /// The scope of a route that a decision names is a scope of the
    /// application.
    pub proof fn lemma_endpoint_scope(&self, d: DispatchView)
        requires
            self.wf(),
            self@.admits(d),
        ensures
            self@.scope_of(d).0 < self@.scopes.len(),
    {
        match d {
            DispatchView::RunHandler { endpoint, .. } => {
                assert(self@.endpoints[endpoint as int].scope.0 < self@.scopes.len());
            },
            _ => {},
        }
    }

    /// Resolves a request and decides on it.
    pub fn route_request(&self, path: &str, method: Method) -> (d: Dispatch)
        requires
            self.wf(),
        ensures
            d@ == self@.decide(
                self@.resolve(path.spec_bytes(), method),
                path.spec_bytes(),
                method,
            ),
            self@.admits(d@),
    {
        let r = self.recognize(path, method);
        self.dispatch(r, path, method)
    }
}

/// Why the assembly of an application failed.
#[derive(Clone, Copy, Debug, PartialEq, Eq, Structural)]
pub enum AssemblyError {
    /// A pattern is malformed.
    Pattern(PatternError),
    /// A route is registered on the path of another route that serves one
    /// of its methods.
    DuplicateRoute,
    /// A wildcard is registered where no path can reach it.
    UnreachableWildcard,
}

/// The value that `states` holds under `key`, looked for from `from` on: the
/// first entry with the key counts.
pub open spec fn state_from<S>(states: Seq<(u64, S)>, key: u64, from: int) -> Option<S>
    decreases states.len() - from,
{
    if from < 0 || from >= states.len() {
        None
    } else if states[from].0 == key {
        Some(states[from].1)
    } else {
        state_from(states, key, from + 1)
    }
}

/// An entry put in front decides its own key and leaves the others alone.
pub proof fn lemma_state_shift<S>(states: Seq<(u64, S)>, entry: (u64, S), key: u64, from: int)
    requires
        0 <= from,
    ensures
        state_from(seq![entry] + states, key, from + 1) == state_from(states, key, from),
    decreases states.len() - from,
{
    let all = seq![entry] + states;
    if from < states.len() {
        assert(all[from + 1] == states[from]);
        lemma_state_shift(states, entry, key, from + 1);
    }
}

impl<H, M, S> AppView<H, M, S> {
    /// The full pattern of a route that is to be registered in `scope`, or
    /// the reason why it is refused.
    pub open spec fn registration(
        self,
        scope: ScopeId,
        uri: crate::uri::UriView,
        methods: Option<AllowedMethods>,
    ) -> Result<crate::uri::UriView, AssemblyError> {
        match self.scopes[scope.0 as int].prefix@.join(uri) {
            Err(e) => Err(AssemblyError::Pattern(e)),
            Ok(full) => if exists|i: int|
                0 <= i < self.endpoints.len() && self.keys[i] == key_of(full) && overlapping(
                    (#[trigger] self.endpoints[i]).allowed_methods,
                    methods,
                ) {
                Err(AssemblyError::DuplicateRoute)
            } else if wildcard_shadowed(self.keys, key_of(full)) {
                Err(AssemblyError::UnreachableWildcard)
            } else {
                Ok(full)
            },
        }
    }

    /// The value of the state `key` that holds in scope `i`: that of the
    /// nearest scope from `i` towards the root that has set one.
    pub open spec fn state_at(self, key: u64, i: int) -> Option<S>
        decreases i,
    {
        if i < 0 || i >= self.scopes.len() || i >= self.parents.len() {
            None
        } else {
            match state_from(self.scopes[i].states@, key, 0) {
                Some(v) => Some(v),
                None => match self.parents[i] {
                    Some(p) => if 0 <= p < i {
                        self.state_at(key, p)
                    } else {
                        None
                    },
                    None => None,
                },
            }
        }
    }

    /// Whether this is an application with the root scope alone, mounted
    /// at `/`, and with nothing set and no route.
    pub open spec fn is_fresh(self) -> bool {
        &&& self.keys.len() == 0
        &&& self.endpoints.len() == 0
        &&& self.parents == seq![None::<int>]
        &&& self.scopes.len() == 1
        &&& self.scopes[0].prefix@ == crate::uri::UriView::root()
        &&& self.scopes[0].modifiers@.len() == 0
        &&& self.scopes[0].default_handler.is_none()
        &&& self.scopes[0].states@.len() == 0
    }

    /// Whether `after` is this application with one more scope, mounted
    /// under `parent` with the full prefix `full`, and with nothing set in
    /// it.
    pub open spec fn mounted(self, after: AppView<H, M, S>, parent: ScopeId, full: crate::uri::UriView) -> bool {
        &&& after.keys == self.keys
        &&& after.endpoints == self.endpoints
        &&& after.fallback_head == self.fallback_head
        &&& after.fallback_options == self.fallback_options
        &&& after.parents == self.parents.push(Some(parent.0 as int))
        &&& after.scopes.len() == self.scopes.len() + 1
        &&& forall|i: int| 0 <= i < self.scopes.len() ==> #[trigger] after.scopes[i] == self.scopes[i]
        &&& after.scopes.last().prefix@ == full
        &&& after.scopes.last().modifiers@.len() == 0
        &&& after.scopes.last().default_handler.is_none()
        &&& after.scopes.last().states@.len() == 0
    }

    /// Whether `after` is this application with one more route, registered
    /// in `scope` with the full pattern `full`.
    pub open spec fn routed(
        self,
        after: AppView<H, M, S>,
        scope: ScopeId,
        full: crate::uri::UriView,
        methods: Option<AllowedMethods>,
        handler: H,
    ) -> bool {
        &&& after.keys == self.keys.push(key_of(full))
        &&& after.parents == self.parents
        &&& after.scopes == self.scopes
        &&& after.fallback_head == self.fallback_head
        &&& after.fallback_options == self.fallback_options
        &&& after.endpoints.len() == self.endpoints.len() + 1
        &&& forall|i: int|
            0 <= i < self.endpoints.len() ==> #[trigger] after.endpoints[i] == self.endpoints[i]
        &&& after.endpoints.last().id == self.endpoints.len()
        &&& after.endpoints.last().scope == scope
        &&& after.endpoints.last().ancestors@ == chain_of(self.parents, scope.0 as int)
        &&& after.endpoints.last().uri@ == full
        &&& after.endpoints.last().allowed_methods == methods
        &&& after.endpoints.last().handler == handler
    }

    /// Whether `after` differs from this application in what `scope`
    /// carries at most, and not in the prefix of that scope.
    pub open spec fn changed_in(self, after: AppView<H, M, S>, scope: ScopeId) -> bool {
        &&& self.same_routes(after)
        &&& forall|i: int|
            0 <= i < self.scopes.len() && i != scope.0 ==> #[trigger] after.scopes[i]
                == self.scopes[i]
        &&& after.scopes[scope.0 as int].prefix == self.scopes[scope.0 as int].prefix
    }

    /// A route on the full pattern of a registered route that serves one of
    /// its methods is refused as a duplicate.
    pub proof fn lemma_duplicate_refused(
        self,
        scope: ScopeId,
        uri: crate::uri::UriView,
        methods: Option<AllowedMethods>,
        i: int,
    )
        requires
            self.scopes[scope.0 as int].prefix@.join(uri) is Ok,
            0 <= i < self.endpoints.len(),
            self.keys[i] == key_of(self.scopes[scope.0 as int].prefix@.join(uri)->Ok_0),
            overlapping(self.endpoints[i].allowed_methods, methods),
        ensures
            self.registration(scope, uri, methods) == Err::<crate::uri::UriView, AssemblyError>(
                AssemblyError::DuplicateRoute,
            ),
    {
    }

    /// Whether `other` has the same routes and policies as this
    /// application, and the same tree of scopes.
    pub open spec fn same_routes(self, other: AppView<H, M, S>) -> bool {
        &&& other.keys == self.keys
        &&& other.endpoints == self.endpoints
        &&& other.parents == self.parents
        &&& other.scopes.len() == self.scopes.len()
        &&& other.fallback_head == self.fallback_head
        &&& other.fallback_options == self.fallback_options
    }
}

impl<H, M, S> AppInner<H, M, S> {
    /// An application with the root scope and no route.
    pub fn new(config: Config) -> (app: Self)
        ensures
            app.wf(),
            app@.keys.len() == 0,
            app@.endpoints.len() == 0,
            app@.parents == seq![None::<int>],
            app@.scopes.len() == 1,
            app@.scopes[0].prefix@ == crate::uri::UriView::root(),
            app@.scopes[0].modifiers@.len() == 0,
            app@.scopes[0].default_handler.is_none(),
            app@.scopes[0].states@.len() == 0,
            app@.fallback_head == config.fallback_head,
            app@.fallback_options == config.fallback_options,
    {
        let root = ScopeData {
            prefix: Uri::root(),
            modifiers: Vec::new(),
            default_handler: None,
            states: Vec::new(),
        };
        let app = AppInner {
            recognizer: Recognizer::new(),
            scopes: Scopes::new(root),
            endpoints: Vec::new(),
            config,
        };
        assert(app@.parents =~= seq![None::<int>]);
        app
    }

    /// Mounts a scope under `parent`.  Its prefix is that of the parent
    /// followed by `prefix`.
    pub fn mount(&mut self, parent: ScopeId, prefix: &Uri) -> (r: Result<ScopeId, AssemblyError>)
        requires
            old(self).wf(),
            parent.0 < old(self)@.scopes.len(),
            prefix@.wf(),
        ensures
            final(self).wf(),
            match old(self)@.scopes[parent.0 as int].prefix@.join(prefix@) {
                Err(e) => r == Err::<ScopeId, AssemblyError>(AssemblyError::Pattern(e))
                    && final(self)@ == old(self)@,
                Ok(full) => {
                    &&& r is Ok
                    &&& r->Ok_0.0 == old(self)@.scopes.len()
                    &&& final(self)@.keys == old(self)@.keys
                    &&& final(self)@.endpoints == old(self)@.endpoints
                    &&& final(self)@.fallback_head == old(self)@.fallback_head
                    &&& final(self)@.fallback_options == old(self)@.fallback_options
                    &&& final(self)@.parents == old(self)@.parents.push(Some(parent.0 as int))
                    &&& final(self)@.scopes.len() == old(self)@.scopes.len() + 1
                    &&& forall|i: int|
                        0 <= i < old(self)@.scopes.len() ==> #[trigger] final(self)@.scopes[i]
                            == old(self)@.scopes[i]
                    &&& final(self)@.scopes.last().prefix@ == full
                    &&& final(self)@.scopes.last().modifiers@.len() == 0
                    &&& final(self)@.scopes.last().default_handler.is_none()
                    &&& final(self)@.scopes.last().states@.len() == 0
                },
            },
    {
        assert(self@.scopes[parent.0 as int] == self.scopes.data(parent.0 as int));
        let joined = self.scopes.get(parent).data.prefix.join(prefix);
        match joined {
            Err(e) => Err(AssemblyError::Pattern(e)),
            Ok(full) => {
                let ghost before = self@;
                let data = ScopeData {
                    prefix: full,
                    modifiers: Vec::new(),
                    default_handler: None,
                    states: Vec::new(),
                };
                let id = self.scopes.add(parent, data);
                proof {
                    let after = self@;
                    assert forall|i: int| 0 <= i < before.scopes.len() implies #[trigger] after.scopes[i]
                        == before.scopes[i] by {
                        assert(self.scopes.data(i) == old(self).scopes.data(i));
                    }
                    assert forall|i: int| 0 <= i < after.endpoints.len() implies chain_of(
                        after.parents,
                        (#[trigger] after.endpoints[i]).scope.0 as int,
                    ) == chain_of(before.parents, after.endpoints[i].scope.0 as int) by {
                        crate::scope::lemma_ancestors_push(
                            before.parents,
                            Some(parent.0 as int),
                            after.endpoints[i].scope.0 as int,
                        );
                    }
                    assert forall|s: int| 0 <= s < after.scopes.len() implies (
                    #[trigger] after.scopes[s]).prefix@.wf() by {
                        if s < before.scopes.len() {
                            assert(after.scopes[s] == before.scopes[s]);
                        }
                    }
                }
                Ok(id)
            },
        }
    }

    /// Whether two routes on one path would both serve some method.
    fn overlap(a: &Option<AllowedMethods>, b: &Option<AllowedMethods>) -> (r: bool)
        ensures
            r == overlapping(*a, *b),
    {
        match (a, b) {
            (Some(x), Some(y)) => x.intersects(y),
            _ => true,
        }
    }

    /// Registers a route in `scope`.  Its pattern is the prefix of the scope
    /// followed by `uri`; `methods` are the methods that it serves, `None`
    /// for all of them.  Returns the identifier of the route.
    pub fn register(
        &mut self,
        scope: ScopeId,
        uri: &Uri,
        methods: Option<AllowedMethods>,
        handler: H,
    ) -> (r: Result<usize, AssemblyError>)
        requires
            old(self).wf(),
            scope.0 < old(self)@.scopes.len(),
            uri@.wf(),
        ensures
            final(self).wf(),
            match old(self)@.registration(scope, uri@, methods) {
                Err(e) => r == Err::<usize, AssemblyError>(e) && final(self)@ == old(self)@,
                Ok(full) => {
                    &&& r is Ok
                    &&& r->Ok_0 == old(self)@.endpoints.len()
                    &&& final(self)@.keys == old(self)@.keys.push(key_of(full))
                    &&& final(self)@.parents == old(self)@.parents
                    &&& final(self)@.scopes == old(self)@.scopes
                    &&& final(self)@.fallback_head == old(self)@.fallback_head
                    &&& final(self)@.fallback_options == old(self)@.fallback_options
                    &&& final(self)@.endpoints.len() == old(self)@.endpoints.len() + 1
                    &&& forall|i: int|
                        0 <= i < old(self)@.endpoints.len() ==> #[trigger] final(self)@.endpoints[i]
                            == old(self)@.endpoints[i]
                    &&& final(self)@.endpoints.last().id == old(self)@.endpoints.len()
                    &&& final(self)@.endpoints.last().scope == scope
                    &&& final(self)@.endpoints.last().ancestors@ == chain_of(
                        old(self)@.parents,
                        scope.0 as int,
                    )
                    &&& final(self)@.endpoints.last().uri@ == full
                    &&& final(self)@.endpoints.last().allowed_methods == methods
                    &&& final(self)@.endpoints.last().handler == handler
                },
            },
    {
        let ghost before = self@;
        assert(self@.scopes[scope.0 as int] == self.scopes.data(scope.0 as int));
        let joined = self.scopes.get(scope).data.prefix.join(uri);
        let full = match joined {
            Err(e) => {
                return Err(AssemblyError::Pattern(e));
            },
            Ok(full) => full,
        };
        let ghost k = key_of(full@);
        let count = self.endpoints.len();
        proof {
            crate::recognizer::lemma_ids_at_members(before.keys, k);
        }
        match self.recognizer.registered(&full) {
            Some(ids) => {
                let mut t: usize = 0;
                while t < ids.len()
                    invariant
                        t <= ids@.len(),
                        ids@ == ids_at(before.keys, k),
                        before == self@,
                        before == old(self)@,
                        self.wf(),
                        k == key_of(full@),
                        scope.0 < before.scopes.len(),
                        before.scopes[scope.0 as int].prefix@.join(uri@) == Ok::<
                            crate::uri::UriView,
                            PatternError,
                        >(full@),
                        before.endpoints.len() == before.keys.len(),
                        before.endpoints.len() == self.endpoints@.len(),
                        forall|u: int|
                            0 <= u < ids@.len() ==> (#[trigger] ids@[u]) < before.keys.len()
                                && before.keys[ids@[u] as int] == k,
                        forall|u: int|
                            0 <= u < t ==> !overlapping(
                                before.endpoints[(#[trigger] ids@[u]) as int].allowed_methods,
                                methods,
                            ),
                    decreases ids@.len() - t,
                {
                    let id = ids[t];
                    if Self::overlap(&self.endpoints[id].allowed_methods, &methods) {
                        assert(before.keys[id as int] == k && overlapping(
                            before.endpoints[id as int].allowed_methods,
                            methods,
                        ));
                        return Err(AssemblyError::DuplicateRoute);
                    }
                    t = t + 1;
                }
            },
            None => {},
        }
        assert(!(exists|i: int|
            0 <= i < before.endpoints.len() && before.keys[i] == k && overlapping(
                (#[trigger] before.endpoints[i]).allowed_methods,
                methods,
            ))) by {
            assert forall|i: int|
                0 <= i < before.endpoints.len() && before.keys[i] == k implies !overlapping(
                (#[trigger] before.endpoints[i]).allowed_methods,
                methods,
            ) by {
                let ids = ids_at(before.keys, k);
                let iu = i as usize;
                assert(ids.contains(iu));
                let u = choose|u: int| 0 <= u < ids.len() && ids[u] == iu;
                assert(ids[u] as int == i);
            }
        }
        if self.recognizer.shadows_wildcard(&full) {
            return Err(AssemblyError::UnreachableWildcard);
        }
        let ancestors = self.scopes.chain(scope);
        let id = self.recognizer.insert(&full);
        let endpoint = Endpoint {
            id,
            scope,
            ancestors,
            uri: full,
            allowed_methods: methods,
            handler,
        };
        self.endpoints.push(endpoint);
        proof {
            let after = self@;
            assert(after.scopes =~= before.scopes);
            assert forall|i: int| 0 <= i < after.endpoints.len() implies {
                let e = #[trigger] after.endpoints[i];
                &&& e.id == i
                &&& e.scope.0 < after.scopes.len()
                &&& e.ancestors@ == chain_of(after.parents, e.scope.0 as int)
                &&& e.uri@.wf()
                &&& key_of(e.uri@) == after.keys[i]
            } by {
                if i < before.endpoints.len() {
                    assert(after.endpoints[i] == before.endpoints[i]);
                }
            }
            assert forall|i: int, j: int|
                0 <= i < j < after.endpoints.len() && after.keys[i] == after.keys[j] implies !overlapping(
                (#[trigger] after.endpoints[i]).allowed_methods,
                (#[trigger] after.endpoints[j]).allowed_methods,
            ) by {
                assert(after.endpoints[i] == before.endpoints[i]);
                if j < before.endpoints.len() {
                    assert(after.endpoints[j] == before.endpoints[j]);
                } else {
                    assert(before.keys[i] == k);
                }
            }
        }
        Ok(id)
    }
}

/// A modifier of the application: the scope that holds it and its place
/// among the modifiers of that scope.
#[derive(Clone, Copy, Debug, PartialEq, Eq, Structural)]
pub struct ModifierRef {
    pub scope: ScopeId,
    pub index: usize,
}

/// The modifiers of one scope, in the order of their registration.
pub open spec fn scope_modifiers(scope: ScopeId, count: nat) -> Seq<ModifierRef> {
    Seq::new(count, |j: int| ModifierRef { scope, index: j as usize })
}

impl<H, M, S> AppView<H, M, S> {
    /// The modifiers of the scopes `chain[..n]`, scope after scope.
    pub open spec fn modifiers_of(self, chain: Seq<ScopeId>, n: int) -> Seq<ModifierRef>
        decreases n,
    {
        if n <= 0 || n > chain.len() {
            Seq::empty()
        } else {
            self.modifiers_of(chain, n - 1) + scope_modifiers(
                chain[n - 1],
                self.scopes[chain[n - 1].0 as int].modifiers@.len(),
            )
        }
    }

    /// The modifiers that apply in scope `s`, outermost first: those of the
    /// root, then those of each scope on the way down to `s`, each scope's
    /// in the order of their registration.
    pub open spec fn modifier_chain(self, s: ScopeId) -> Seq<ModifierRef> {
        let chain = chain_of(self.parents, s.0 as int);
        self.modifiers_of(chain, chain.len() as int)
    }
}

/// The value that `states` holds under `key`.
fn find_state<S>(states: &Vec<(u64, S)>, key: u64) -> (r: Option<&S>)
    ensures
        match state_from(states@, key, 0) {
            Some(v) => r == Some(&v),
            None => r.is_none(),
        },
{
    let mut j: usize = 0;
    while j < states.len()
        invariant
            j <= states@.len(),
            state_from(states@, key, 0) == state_from(states@, key, j as int),
        decreases states@.len() - j,
    {
        if states[j].0 == key {
            return Some(&states[j].1);
        }
        j = j + 1;
    }
    None
}

impl<H, M, S> AppInner<H, M, S> {
    /// Sets the state `key` of `scope` to `value`.  The value holds in the
    /// scope and in every scope below it that sets none of its own.
    pub fn set_state(&mut self, scope: ScopeId, key: u64, value: S)
        requires
            old(self).wf(),
            scope.0 < old(self)@.scopes.len(),
        ensures
            final(self).wf(),
            old(self)@.same_routes(final(self)@),
            forall|i: int|
                0 <= i < old(self)@.scopes.len() && i != scope.0 ==> #[trigger] final(self)@.scopes[i]
                    == old(self)@.scopes[i],
            final(self)@.scopes[scope.0 as int].prefix == old(self)@.scopes[scope.0 as int].prefix,
            final(self)@.scopes[scope.0 as int].modifiers == old(self)@.scopes[scope.0 as int].modifiers,
            final(self)@.scopes[scope.0 as int].default_handler == old(self)@.scopes[scope.0 as int].default_handler,
            final(self)@.scopes[scope.0 as int].states@ == seq![(key, value)] + old(self)@.scopes[scope.0 as int].states@,
            final(self)@.state_at(key, scope.0 as int) == Some(value),
            forall|k: u64|
                k != key ==> #[trigger] state_from(final(self)@.scopes[scope.0 as int].states@, k, 0)
                    == state_from(old(self)@.scopes[scope.0 as int].states@, k, 0),
    {
        let ghost before = self@;
        self.scopes.scopes[scope.0].data.states.insert(0, (key, value));
        proof {
            let after = self@;
            assert forall|k: u64| k != key implies #[trigger] state_from(
                after.scopes[scope.0 as int].states@,
                k,
                0,
            ) == state_from(before.scopes[scope.0 as int].states@, k, 0) by {
                assert(after.scopes[scope.0 as int].states@ =~= seq![(key, value)]
                    + before.scopes[scope.0 as int].states@);
                lemma_state_shift(before.scopes[scope.0 as int].states@, (key, value), k, 0);
            }
            assert(after.parents =~= before.parents);
            assert(after.scopes[scope.0 as int].states@ =~= seq![(key, value)]
                + before.scopes[scope.0 as int].states@);
            assert forall|i: int| 0 <= i < before.scopes.len() && i != scope.0 implies #[trigger] after.scopes[i]
                == before.scopes[i] by {}
            self.lemma_scope_data_changed(&*old(self));
        }
    }

    /// Adds a modifier to `scope`, after those that it has.
    pub fn add_modifier(&mut self, scope: ScopeId, modifier: M) -> (r: ModifierRef)
        requires
            old(self).wf(),
            scope.0 < old(self)@.scopes.len(),
        ensures
            final(self).wf(),
            old(self)@.same_routes(final(self)@),
            forall|i: int|
                0 <= i < old(self)@.scopes.len() && i != scope.0 ==> #[trigger] final(self)@.scopes[i]
                    == old(self)@.scopes[i],
            final(self)@.scopes[scope.0 as int].prefix == old(self)@.scopes[scope.0 as int].prefix,
            final(self)@.scopes[scope.0 as int].states == old(self)@.scopes[scope.0 as int].states,
            final(self)@.scopes[scope.0 as int].default_handler == old(self)@.scopes[scope.0 as int].default_handler,
            final(self)@.scopes[scope.0 as int].modifiers@ == old(self)@.scopes[scope.0 as int].modifiers@.push(modifier),
            r.scope == scope,
            r.index == old(self)@.scopes[scope.0 as int].modifiers@.len(),
    {
        let ghost before = self@;
        let index = self.scopes.scopes[scope.0].data.modifiers.len();
        self.scopes.scopes[scope.0].data.modifiers.push(modifier);
        proof {
            let after = self@;
            assert(after.parents =~= before.parents);
            assert forall|i: int| 0 <= i < before.scopes.len() && i != scope.0 implies #[trigger] after.scopes[i]
                == before.scopes[i] by {}
            self.lemma_scope_data_changed(&*old(self));
        }
        ModifierRef { scope, index }
    }

    /// Sets the default handler of `scope`: the handler for requests that
    /// belong to the scope and that no route serves.
    pub fn set_default_handler(&mut self, scope: ScopeId, handler: H)
        requires
            old(self).wf(),
            scope.0 < old(self)@.scopes.len(),
        ensures
            final(self).wf(),
            old(self)@.same_routes(final(self)@),
            forall|i: int|
                0 <= i < old(self)@.scopes.len() && i != scope.0 ==> #[trigger] final(self)@.scopes[i]
                    == old(self)@.scopes[i],
            final(self)@.scopes[scope.0 as int].prefix == old(self)@.scopes[scope.0 as int].prefix,
            final(self)@.scopes[scope.0 as int].states == old(self)@.scopes[scope.0 as int].states,
            final(self)@.scopes[scope.0 as int].modifiers == old(self)@.scopes[scope.0 as int].modifiers,
            final(self)@.scopes[scope.0 as int].default_handler == Some(handler),
            final(self)@.default_owner(scope.0 as int) == Some(scope.0 as int),
    {
        let ghost before = self@;
        self.scopes.scopes[scope.0].data.default_handler = Some(handler);
        proof {
            let after = self@;
            assert(after.parents =~= before.parents);
            assert forall|i: int| 0 <= i < before.scopes.len() && i != scope.0 implies #[trigger] after.scopes[i]
                == before.scopes[i] by {}
            self.lemma_scope_data_changed(&*old(self));
        }
    }

    /// The value of the state `key` that holds in `scope`.
    pub fn get_state(&self, key: u64, scope: ScopeId) -> (r: Option<&S>)
        requires
            self.wf(),
            scope.0 < self@.scopes.len(),
        ensures
            match self@.state_at(key, scope.0 as int) {
                Some(v) => r == Some(&v),
                None => r.is_none(),
            },
    {
        let mut cur = scope;
        loop
            invariant
                self.wf(),
                cur.0 < self@.scopes.len(),
                self@.state_at(key, scope.0 as int) == self@.state_at(key, cur.0 as int),
            decreases cur.0,
        {
            let node = self.scopes.get(cur);
            assert(self@.scopes[cur.0 as int] == node.data);
            match find_state(&node.data.states, key) {
                Some(v) => {
                    return Some(v);
                },
                None => {},
            }
            assert(self@.parents[cur.0 as int] == match node.parent {
                Some(p) => Some(p.0 as int),
                None => None,
            });
            match node.parent() {
                Some(p) => {
                    assert(cur.0 > 0);
                    cur = p;
                },
                None => {
                    return None;
                },
            }
        }
    }

    /// The modifier that `r` names.
    pub fn modifier(&self, r: ModifierRef) -> (m: &M)
        requires
            r.scope.0 < self@.scopes.len(),
            r.index < self@.scopes[r.scope.0 as int].modifiers@.len(),
        ensures
            *m == self@.scopes[r.scope.0 as int].modifiers@[r.index as int],
    {
        &self.scopes.get(r.scope).data.modifiers[r.index]
    }

    /// The modifiers that apply in `scope`, outermost first.
    pub fn modifier_chain(&self, scope: ScopeId) -> (v: Vec<ModifierRef>)
        requires
            self.wf(),
            scope.0 < self@.scopes.len(),
        ensures
            v@ == self@.modifier_chain(scope),
    {
        let chain = self.scopes.chain(scope);
        proof {
            lemma_chain(self@.parents, scope.0 as int);
        }
        let mut v: Vec<ModifierRef> = Vec::new();
        let mut k: usize = 0;
        while k < chain.len()
            invariant
                k <= chain@.len(),
                chain@ == chain_of(self@.parents, scope.0 as int),
                scope.0 < self@.scopes.len(),
                forall|t: int| 0 <= t < chain@.len() ==> (#[trigger] chain@[t]).0 <= scope.0,
                v@ == self@.modifiers_of(chain@, k as int),
            decreases chain@.len() - k,
        {
            let s = chain[k];
            assert(chain@[k as int].0 <= scope.0);
            let data = &self.scopes.get(s).data;
            assert(self@.scopes[s.0 as int] == *data);
            let count = data.modifiers.len();
            let ghost base = v@;
            let mut j: usize = 0;
            while j < count
                invariant
                    j <= count,
                    v@ == base + scope_modifiers(s, j as nat),
                decreases count - j,
            {
                v.push(ModifierRef { scope: s, index: j });
                assert(v@ =~= base + scope_modifiers(s, (j + 1) as nat));
                j = j + 1;
            }
            k = k + 1;
        }
        v
    }
}

/// Whether a route with the methods `allowed` names the method `x`.
pub open spec fn names_method(allowed: Option<AllowedMethods>, x: Method) -> bool {
    match allowed {
        Some(s) => s@.contains(x),
        None => false,
    }
}

/// The methods that the routes `ids[..n]` name between them are exactly
/// those that one of them names.
pub proof fn lemma_allowed_union_members<H>(
    endpoints: Seq<Endpoint<H>>,
    ids: Seq<usize>,
    n: int,
    x: Method,
)
    requires
        0 <= n <= ids.len(),
    ensures
        allowed_union(endpoints, ids, n).contains(x) <==> exists|t: int|
            0 <= t < n && (#[trigger] ids[t]) < endpoints.len() && names_method(
                endpoints[ids[t] as int].allowed_methods,
                x,
            ),
    decreases n,
{
    if n > 0 {
        lemma_allowed_union_members(endpoints, ids, n - 1, x);
        let last = ids[n - 1];
        if allowed_union(endpoints, ids, n).contains(x) {
            if !allowed_union(endpoints, ids, n - 1).contains(x) {
                assert(last < endpoints.len() && names_method(
                    endpoints[last as int].allowed_methods,
                    x,
                ));
            } else {
                let t = choose|t: int|
                    0 <= t < n - 1 && (#[trigger] ids[t]) < endpoints.len() && names_method(
                        endpoints[ids[t] as int].allowed_methods,
                        x,
                    );
                assert(0 <= t < n);
            }
        }
        if exists|t: int|
            0 <= t < n && (#[trigger] ids[t]) < endpoints.len() && names_method(
                endpoints[ids[t] as int].allowed_methods,
                x,
            ) {
            let t = choose|t: int|
                0 <= t < n && (#[trigger] ids[t]) < endpoints.len() && names_method(
                    endpoints[ids[t] as int].allowed_methods,
                    x,
                );
            if t < n - 1 {
                assert(allowed_union(endpoints, ids, n - 1).contains(x));
            }
        }
    }
}

/// A request whose path carries a route that serves its method runs the
/// handler of such a route, with the ranges that the path has bound.
pub proof fn lemma_dispatch_matched<H, M, S>(
    app: AppView<H, M, S>,
    path: Seq<u8>,
    method: Method,
    t: int,
)
    requires
        recognize_path(app.keys, path) is Found,
        0 <= t < recognize_path(app.keys, path)->Found_ids.len(),
        recognize_path(app.keys, path)->Found_ids[t] < app.endpoints.len(),
        accepts(
            app.endpoints[recognize_path(app.keys, path)->Found_ids[t] as int].allowed_methods,
            method,
        ),
    ensures
        ({
            let ids = recognize_path(app.keys, path)->Found_ids;
            let d = app.decide(app.resolve(path, method), path, method);
            &&& d is RunHandler
            &&& d->RunHandler_captures == recognize_path(app.keys, path)->Found_captures
            &&& ids.contains(d->RunHandler_endpoint)
            &&& d->RunHandler_endpoint < app.endpoints.len()
            &&& accepts(app.endpoints[d->RunHandler_endpoint as int].allowed_methods, method)
        }),
{
    let ids = recognize_path(app.keys, path)->Found_ids;
    lemma_first_accepting(app.endpoints, ids, method, 0);
    assert(ids[t] < app.endpoints.len());
}

/// A request whose path carries routes of which none serves its method is
/// answered by a fallback that names the allowed methods: those that the
/// routes on the path name, and `HEAD` where `GET` stands in for it.  The
/// answer is implicit `OPTIONS` where that is enabled and asked for, and the
/// refusal of the method otherwise.
pub proof fn lemma_dispatch_not_allowed<H, M, S>(
    app: AppView<H, M, S>,
    path: Seq<u8>,
    method: Method,
)
    requires
        recognize_path(app.keys, path) is Found,
        forall|t: int|
            0 <= t < recognize_path(app.keys, path)->Found_ids.len() && (
            #[trigger] recognize_path(app.keys, path)->Found_ids[t]) < app.endpoints.len()
                ==> !accepts(
                app.endpoints[recognize_path(app.keys, path)->Found_ids[t] as int].allowed_methods,
                method,
            ),
        !(method == Method::Head && app.fallback_head && first_accepting(
            app.endpoints,
            recognize_path(app.keys, path)->Found_ids,
            Method::Get,
            0,
        ).is_some()),
    ensures
        ({
            let ids = recognize_path(app.keys, path)->Found_ids;
            let named = allowed_union(app.endpoints, ids, ids.len() as int);
            let allow = if app.fallback_head && named.contains(Method::Get) {
                named.insert(Method::Head)
            } else {
                named
            };
            &&& app.decide(app.resolve(path, method), path, method) == (DispatchView::RunFallback {
                scope: app.infer_scope(path, ids),
                fallback: if method == Method::Options && app.fallback_options {
                    FallbackView::Options { allow }
                } else {
                    FallbackView::MethodNotAllowed { allow }
                },
            })
            &&& forall|x: Method|
                named.contains(x) <==> exists|t: int|
                    0 <= t < ids.len() && (#[trigger] ids[t]) < app.endpoints.len() && names_method(
                        app.endpoints[ids[t] as int].allowed_methods,
                        x,
                    )
        }),
{
    let ids = recognize_path(app.keys, path)->Found_ids;
    lemma_first_accepting(app.endpoints, ids, method, 0);
    assert forall|x: Method|
        allowed_union(app.endpoints, ids, ids.len() as int).contains(x) <==> exists|t: int|
            0 <= t < ids.len() && (#[trigger] ids[t]) < app.endpoints.len() && names_method(
                app.endpoints[ids[t] as int].allowed_methods,
                x,
            ) by {
        lemma_allowed_union_members(app.endpoints, ids, ids.len() as int, x);
    }
}

/// Resolving a request depends on the registered routes and on the policy
/// for `HEAD` alone: as long as these stand, the same path and method
/// resolve to the same outcome.
pub proof fn lemma_resolve_stable<H, M, S>(
    a: AppView<H, M, S>,
    b: AppView<H, M, S>,
    path: Seq<u8>,
    method: Method,
)
    requires
        a.keys == b.keys,
        a.endpoints == b.endpoints,
        a.fallback_head == b.fallback_head,
    ensures
        a.resolve(path, method) == b.resolve(path, method),
{
}

/// In a scope that sets a state the value set there holds; in a
/// scope that sets none the value of its parent holds; and in the root, if
/// it sets none, there is none.
pub proof fn lemma_state_shadowing<H, M, S>(app: AppView<H, M, S>, key: u64, i: int)
    requires
        app.wf(),
        0 <= i < app.scopes.len(),
    ensures
        state_from(app.scopes[i].states@, key, 0).is_some() ==> app.state_at(key, i) == state_from(
            app.scopes[i].states@,
            key,
            0,
        ),
        state_from(app.scopes[i].states@, key, 0).is_none() && i > 0 ==> app.parents[i].is_some()
            && app.state_at(key, i) == app.state_at(key, app.parents[i]->Some_0),
        state_from(app.scopes[i].states@, key, 0).is_none() && i == 0 ==> app.state_at(key, i).is_none(),
{
}

/// A chain of scopes shares all of itself with itself.
pub proof fn lemma_common_len_self(c: Seq<ScopeId>, from: int)
    requires
        0 <= from <= c.len(),
    ensures
        common_len(c, c, from) == c.len(),
    decreases c.len() - from,
{
    if from < c.len() {
        lemma_common_len_self(c, from + 1);
    }
}

/// Routes of one scope share the chain of that scope.
pub proof fn lemma_shared_chain_of_siblings<H, M, S>(
    app: AppView<H, M, S>,
    candidates: Seq<usize>,
    s: ScopeId,
    n: int,
)
    requires
        app.wf(),
        1 <= n <= candidates.len(),
        forall|t: int|
            0 <= t < candidates.len() ==> (#[trigger] candidates[t]) < app.endpoints.len()
                && app.endpoints[candidates[t] as int].scope == s,
    ensures
        shared_chain(app.endpoints, candidates, n) == Some(chain_of(app.parents, s.0 as int)),
    decreases n,
{
    let chain = chain_of(app.parents, s.0 as int);
    let id = candidates[n - 1];
    assert(app.endpoints[id as int].ancestors@ == chain);
    if n > 1 {
        lemma_shared_chain_of_siblings(app, candidates, s, n - 1);
        lemma_common_len_self(chain, 0);
        assert(chain.take(chain.len() as int) =~= chain);
    }
}

/// A request that came close to routes of one scope
/// alone, and whose path the prefix of that scope starts, belongs to that
/// scope, so that the default handler and the modifiers of the scope apply
/// and not those of the root.
pub proof fn lemma_infer_scope_of_siblings<H, M, S>(
    app: AppView<H, M, S>,
    path: Seq<u8>,
    candidates: Seq<usize>,
    s: ScopeId,
)
    requires
        app.wf(),
        candidates.len() > 0,
        forall|t: int|
            0 <= t < candidates.len() ==> (#[trigger] candidates[t]) < app.endpoints.len()
                && app.endpoints[candidates[t] as int].scope == s,
        app.prefix_matches(s, path),
    ensures
        app.infer_scope(path, candidates) == s,
{
    lemma_shared_chain_of_siblings(app, candidates, s, candidates.len() as int);
    let chain = chain_of(app.parents, s.0 as int);
    assert(chain.last() == s);
    assert(chain[chain.len() - 1] == s);
}

/// A route of literal segments is served by itself: a request for the text
/// of its pattern, with a method that it serves, runs its handler and binds
/// nothing, whatever else is registered.
pub proof fn lemma_static_route_served<H, M, S>(app: AppView<H, M, S>, i: int, method: Method)
    requires
        app.wf(),
        app.keys.len() <= usize::MAX,
        0 <= i < app.endpoints.len(),
        crate::recognizer::is_static(app.endpoints[i].uri@),
        accepts(app.endpoints[i].allowed_methods, method),
    ensures
        ({
            let path = app.endpoints[i].uri@.render();
            app.decide(app.resolve(path, method), path, method) == (DispatchView::RunHandler {
                endpoint: i as usize,
                captures: CapturesView { params: Seq::empty(), wildcard: None },
            })
        }),
{
    let route = app.endpoints[i];
    let path = route.uri@.render();
    let key = key_of(route.uri@);
    let ids = ids_at(app.keys, key);
    crate::recognizer::lemma_static_route_wins(app.keys, route.uri@, i);
    crate::recognizer::lemma_ids_at_members(app.keys, key);
    lemma_first_accepting(app.endpoints, ids, method, 0);
    let own = i as usize;
    assert(ids.contains(own));
    let t = choose|t: int| 0 <= t < ids.len() && ids[t] == own;
    assert(ids[t] < app.endpoints.len() && accepts(
        app.endpoints[ids[t] as int].allowed_methods,
        method,
    ));
    let found = first_accepting(app.endpoints, ids, method, 0)->Some_0;
    let u = choose|u: int| 0 <= u < ids.len() && ids[u] == found;
    assert(app.keys[ids[u] as int] == key);
    if found != own {
        let other = app.endpoints[found as int];
        assert(overlapping(other.allowed_methods, route.allowed_methods)) by {
            if other.allowed_methods.is_some() && route.allowed_methods.is_some() {
                let a = other.allowed_methods->Some_0@;
                let b = route.allowed_methods->Some_0@;
                assert(a.contains(method) && b.contains(method));
            }
        }
        if (found as int) < i {
            assert(!overlapping(app.endpoints[found as int].allowed_methods, app.endpoints[i].allowed_methods));
        } else {
            assert(!overlapping(app.endpoints[i].allowed_methods, app.endpoints[found as int].allowed_methods));
        }
    }
}

} // verus!
