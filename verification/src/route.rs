//! Builders of routes: a pattern, the methods that it serves, and what
//! handles a request for it.

use core::marker::PhantomData;
use vstd::prelude::*;
use vstd::string::StringSliceAdditionalSpecFns;
use crate::app::{AppInner, AssemblyError};
use crate::bytes::copy_bytes;
use crate::fs::{ArcPath, NamedFile, OpenConfig, OpenFuture};
use crate::input::Params;
use crate::method::{AllowedMethods, Method};
use crate::scope::ScopeId;
use crate::uri::{parse_uri, Component, PatternError, Uri, UriComponent, UriView};

verus! {

/// The mark of a builder whose pattern is closed: it ends in the trailing
/// slash or in a wildcard, or is `*`.
#[derive(Debug)]
pub struct Completed(());

/// The mark of a builder whose pattern can still grow.
#[derive(Debug)]
pub struct Incomplete(());

/// Two extractors, the left one before the right one.
#[derive(Debug)]
pub struct Chain<L, R> {
    pub left: L,
    pub right: R,
}

/// The extractor of the parameter called `name`.
#[derive(Debug)]
pub struct ParamExtractor {
    pub name: String,
}

/// The extractor of the wildcard parameter.
#[derive(Debug)]
pub struct CatchAllExtractor;

/// Why a parameter could not be extracted.
#[derive(Clone, Copy, Debug, PartialEq, Eq, Structural)]
pub enum ParamError {
    /// The request has bound no parameters.
    MissingParams,
    /// The parameters hold no value under the name.
    InvalidName,
    /// The parameters hold no wildcard value.
    CatchAllNotAvailable,
}

impl ParamExtractor {
    /// The raw value of the parameter in `params`.
    pub fn extract<'a>(&self, params: &Option<Params<'a>>) -> (r: Result<&'a str, ParamError>)
        ensures
            match *params {
                None => r == Err::<&'a str, ParamError>(ParamError::MissingParams),
                Some(p) => match p@.name(vstd::utf8::encode_utf8(self.name@)) {
                    Some(v) => r is Ok && r->Ok_0.spec_bytes() == v,
                    None => r == Err::<&'a str, ParamError>(ParamError::InvalidName),
                },
            },
    {
        match params {
            Some(p) => {
                let v = p.name(self.name.as_str());
                match v {
                    Some(s) => Ok(s),
                    None => Err(ParamError::InvalidName),
                }
            },
            None => Err(ParamError::MissingParams),
        }
    }
}

impl CatchAllExtractor {
    /// The raw value of the wildcard parameter in `params`.
    pub fn extract<'a>(&self, params: &Option<Params<'a>>) -> (r: Result<&'a str, ParamError>)
        ensures
            match *params {
                None => r == Err::<&'a str, ParamError>(ParamError::MissingParams),
                Some(p) => match p@.get_wildcard() {
                    Some(v) => r is Ok && r->Ok_0.spec_bytes() == v,
                    None => r == Err::<&'a str, ParamError>(ParamError::CatchAllNotAvailable),
                },
            },
    {
        match params {
            Some(p) => {
                let v = p.get_wildcard();
                match v {
                    Some(s) => Ok(s),
                    None => Err(ParamError::CatchAllNotAvailable),
                }
            },
            None => Err(ParamError::MissingParams),
        }
    }
}

/// A list of methods names one that a set of methods cannot hold.
#[derive(Clone, Copy, Debug, PartialEq, Eq, Structural)]
pub struct InvalidMethod;

/// The set of the first `n` methods of `methods`.
pub open spec fn methods_upto(methods: Seq<Method>, n: int) -> Set<Method>
    decreases n,
{
    if n <= 0 || n > methods.len() {
        Set::empty()
    } else {
        methods_upto(methods, n - 1).insert(methods[n - 1])
    }
}

/// The set of the methods in `methods`, which must all be registered
/// methods.
pub fn methods_from(methods: &[Method]) -> (r: Result<AllowedMethods, InvalidMethod>)
    ensures
        match r {
            Ok(s) => s@ == methods_upto(methods@, methods@.len() as int) && !methods@.contains(
                Method::Extension,
            ),
            Err(_) => methods@.contains(Method::Extension),
        },
{
    let mut set = AllowedMethods::empty();
    let mut i: usize = 0;
    while i < methods.len()
        invariant
            i <= methods@.len(),
            set@ == methods_upto(methods@, i as int),
            forall|j: int| 0 <= j < i ==> methods@[j] != Method::Extension,
        decreases methods@.len() - i,
    {
        if methods[i] == Method::Extension {
            return Err(InvalidMethod);
        }
        set = set.with(methods[i]);
        i = i + 1;
    }
    Ok(set)
}

/// A builder of routes as a mathematical value.
pub struct BuilderView<E> {
    pub uri: UriView,
    pub allowed_methods: Option<AllowedMethods>,
    pub extractor: E,
}

/// A builder of a route, which matches the requests for a certain path and
/// certain methods.
pub struct Builder<E, T> {
    uri: Uri,
    allowed_methods: Option<AllowedMethods>,
    extractor: E,
    _marker: PhantomData<T>,
}

impl<E, T> View for Builder<E, T> {
    type V = BuilderView<E>;

    closed spec fn view(&self) -> BuilderView<E> {
        BuilderView {
            uri: self.uri@,
            allowed_methods: self.allowed_methods,
            extractor: self.extractor,
        }
    }
}

/// A builder for the root path `/` that accepts every method.
pub fn root() -> (b: Builder<(), Incomplete>)
    ensures
        b@.uri == UriView::root(),
        b@.allowed_methods.is_none(),
{
    Builder { uri: Uri::root(), allowed_methods: None, extractor: (), _marker: PhantomData }
}

/// A builder for the request target `*`, which serves `OPTIONS` alone.
pub fn asterisk() -> (b: Builder<(), Completed>)
    ensures
        b@.uri == UriView::asterisk(),
        b@.allowed_methods.is_some(),
        b@.allowed_methods->Some_0@ == set![Method::Options],
{
    Builder {
        uri: Uri::asterisk(),
        allowed_methods: Some(AllowedMethods::single(Method::Options)),
        extractor: (),
        _marker: PhantomData,
    }
}

/// A builder for the root path `/`: the same as `root`.
pub fn route() -> (b: Builder<(), Incomplete>)
    ensures
        b@.uri == UriView::root(),
        b@.allowed_methods.is_none(),
{
    root()
}

impl<E, T> Builder<E, T> {
    #[verifier::type_invariant]
    spec fn inv(self) -> bool {
        self.uri@.wf()
    }

    /// The pattern that the builder has got so far.
    pub fn uri(&self) -> (u: &Uri)
        ensures
            u@ == self@.uri,
            u@.wf(),
    {
        proof {
            use_type_invariant(self);
        }
        &self.uri
    }
}

impl<E> Builder<E, Incomplete> {
    /// Sets the methods that this route accepts.  By default a route accepts
    /// every method.
    pub fn allowed_methods(self, methods: &[Method]) -> (r: Result<Self, InvalidMethod>)
        ensures
            match r {
                Ok(b) => !methods@.contains(Method::Extension) && b@.uri == self@.uri
                    && b@.extractor == self@.extractor && b@.allowed_methods.is_some()
                    && b@.allowed_methods->Some_0@ == methods_upto(
                    methods@,
                    methods@.len() as int,
                ),
                Err(_) => methods@.contains(Method::Extension),
            },
    {
        proof {
            use_type_invariant(&self);
        }
        match methods_from(methods) {
            Ok(set) => Ok(
                Builder {
                    uri: self.uri,
                    allowed_methods: Some(set),
                    extractor: self.extractor,
                    _marker: PhantomData,
                },
            ),
            Err(e) => Err(e),
        }
    }

    /// Appends a static segment to the path of this route.
    pub fn segment(self, s: &str) -> (r: Result<Self, PatternError>)
        ensures
            match self@.uri.push(Component::Static(s.spec_bytes())) {
                Ok(u) => r is Ok && r->Ok_0@ == (BuilderView { uri: u, ..self@ }),
                Err(e) => r is Err && r->Err_0 == e,
            },
    {
        proof {
            use_type_invariant(&self);
        }
        let mut uri = self.uri;
        match uri.push(UriComponent::Static(copy_bytes(s.as_bytes()))) {
            Ok(()) => Ok(
                Builder {
                    uri,
                    allowed_methods: self.allowed_methods,
                    extractor: self.extractor,
                    _marker: PhantomData,
                },
            ),
            Err(e) => Err(e),
        }
    }

    /// Appends a trailing slash to the path of this route.  A pattern that
    /// cannot take one is left as it is.
    pub fn slash(self) -> (b: Builder<E, Completed>)
        ensures
            b@ == (BuilderView {
                uri: match self@.uri.push(Component::Slash) {
                    Ok(u) => u,
                    Err(_) => self@.uri,
                },
                ..self@
            }),
    {
        proof {
            use_type_invariant(&self);
        }
        let mut uri = self.uri;
        let _ = uri.push(UriComponent::Slash);
        Builder {
            uri,
            allowed_methods: self.allowed_methods,
            extractor: self.extractor,
            _marker: PhantomData,
        }
    }

    /// Appends a parameter with the specified name to the path of this
    /// route, and the extractor of its value to the extractors.
    pub fn param(self, name: &str) -> (r: Result<
        Builder<Chain<E, ParamExtractor>, Incomplete>,
        PatternError,
    >)
        ensures
            match self@.uri.push(Component::Capture(name.spec_bytes())) {
                Ok(u) => r is Ok && r->Ok_0@.uri == u && r->Ok_0@.allowed_methods
                    == self@.allowed_methods && r->Ok_0@.extractor.left == self@.extractor
                    && r->Ok_0@.extractor.right.name@ == name@,
                Err(e) => r is Err && r->Err_0 == e,
            },
    {
        proof {
            use_type_invariant(&self);
        }
        let mut uri = self.uri;
        match uri.push(UriComponent::Capture(copy_bytes(name.as_bytes()))) {
            Ok(()) => Ok(
                Builder {
                    uri,
                    allowed_methods: self.allowed_methods,
                    extractor: Chain {
                        left: self.extractor,
                        right: ParamExtractor { name: name.to_owned() },
                    },
                    _marker: PhantomData,
                },
            ),
            Err(e) => Err(e),
        }
    }

    /// Appends a catch-all parameter with the specified name to the path of
    /// this route, and the extractor of its value to the extractors.
    pub fn catch_all(self, name: &str) -> (r: Result<
        Builder<Chain<E, CatchAllExtractor>, Completed>,
        PatternError,
    >)
        ensures
            match self@.uri.push(Component::Wildcard(name.spec_bytes())) {
                Ok(u) => r is Ok && r->Ok_0@.uri == u && r->Ok_0@.allowed_methods
                    == self@.allowed_methods && r->Ok_0@.extractor.left == self@.extractor,
                Err(e) => r is Err && r->Err_0 == e,
            },
    {
        proof {
            use_type_invariant(&self);
        }
        let mut uri = self.uri;
        match uri.push(UriComponent::Wildcard(copy_bytes(name.as_bytes()))) {
            Ok(()) => Ok(
                Builder {
                    uri,
                    allowed_methods: self.allowed_methods,
                    extractor: Chain { left: self.extractor, right: CatchAllExtractor },
                    _marker: PhantomData,
                },
            ),
            Err(e) => Err(e),
        }
    }
}

/// What handles the requests of a route: the extractors of its arguments
/// and the endpoint that takes them.
#[derive(Debug)]
pub struct RouteHandler<E, U> {
    pub allowed_methods: Option<AllowedMethods>,
    pub extractor: E,
    pub endpoint: U,
}

/// An endpoint that calls a function which returns its value at once.
#[derive(Debug)]
pub struct Reply<F> {
    pub f: F,
}

/// An endpoint that calls a function which returns a future.
#[derive(Debug)]
pub struct Call<F> {
    pub f: F,
}

/// A function that returns a copy of `output`.
#[derive(Debug)]
pub struct Say<R> {
    pub output: R,
}

/// A function that opens the file at `path` under `config`.
pub struct SendFile {
    pub path: ArcPath,
    pub config: Option<OpenConfig>,
}

impl SendFile {
    /// Starts to open the file: under the configuration that was given, or
    /// under the default one.
    pub fn open(&self) -> (f: OpenFuture<ArcPath>)
        ensures
            f.inner is Opening,
            f.inner->Opening_0.path() == self.path.path(),
            f.inner->Opening_1 == self.config,
    {
        let path = self.path.clone();
        match self.config {
            Some(config) => NamedFile::open_with_config(path, config),
            None => NamedFile::open(path),
        }
    }
}

/// A route as a mathematical value.
pub struct RouteView<H> {
    pub uri: UriView,
    pub allowed_methods: Option<AllowedMethods>,
    pub handler: H,
}

/// A route: a pattern, the methods that it serves, and its handler.
pub struct Route<H> {
    uri: Uri,
    allowed_methods: Option<AllowedMethods>,
    handler: H,
}

impl<H> View for Route<H> {
    type V = RouteView<H>;

    closed spec fn view(&self) -> RouteView<H> {
        RouteView { uri: self.uri@, allowed_methods: self.allowed_methods, handler: self.handler }
    }
}

impl<E, T> Builder<E, T> {
    /// Appends a supplemental extractor to this route.
    pub fn extract<E2>(self, other: E2) -> (b: Builder<Chain<E, E2>, T>)
        ensures
            b@.uri == self@.uri,
            b@.allowed_methods == self@.allowed_methods,
            b@.extractor.left == self@.extractor,
            b@.extractor.right == other,
    {
        proof {
            use_type_invariant(&self);
        }
        Builder {
            extractor: Chain { left: self.extractor, right: other },
            uri: self.uri,
            allowed_methods: self.allowed_methods,
            _marker: PhantomData,
        }
    }

    /// Finishes this route with the specified endpoint.
    pub fn to<U>(self, endpoint: U) -> (r: Route<RouteHandler<E, U>>)
        ensures
            r@.uri == self@.uri,
            r@.allowed_methods == self@.allowed_methods,
            r@.handler.allowed_methods == self@.allowed_methods,
            r@.handler.extractor == self@.extractor,
            r@.handler.endpoint == endpoint,
    {
        proof {
            use_type_invariant(&self);
        }
        Route {
            uri: self.uri,
            allowed_methods: self.allowed_methods,
            handler: RouteHandler {
                allowed_methods: self.allowed_methods,
                extractor: self.extractor,
                endpoint,
            },
        }
    }

    /// Finishes this route with a function that always succeeds and
    /// returns its value at once.
    pub fn reply<F>(self, f: F) -> (r: Route<RouteHandler<E, Reply<F>>>)
        ensures
            r@.uri == self@.uri,
            r@.allowed_methods == self@.allowed_methods,
            r@.handler.allowed_methods == self@.allowed_methods,
            r@.handler.extractor == self@.extractor,
            r@.handler.endpoint.f == f,
    {
        self.to(Reply { f })
    }

    /// Finishes this route with a function whose result is returned by a
    /// future.
    pub fn call<F>(self, f: F) -> (r: Route<RouteHandler<E, Call<F>>>)
        ensures
            r@.uri == self@.uri,
            r@.allowed_methods == self@.allowed_methods,
            r@.handler.allowed_methods == self@.allowed_methods,
            r@.handler.extractor == self@.extractor,
            r@.handler.endpoint.f == f,
    {
        self.to(Call { f })
    }

    /// Finishes this route so that it just replies with `output`.
    pub fn say<R>(self, output: R) -> (r: Route<RouteHandler<E, Reply<Say<R>>>>)
        ensures
            r@.uri == self@.uri,
            r@.allowed_methods == self@.allowed_methods,
            r@.handler.allowed_methods == self@.allowed_methods,
            r@.handler.extractor == self@.extractor,
            r@.handler.endpoint.f.output == output,
    {
        self.reply(Say { output })
    }
}

impl<E, T> Builder<E, T> {
    /// Finishes this route so that it sends the contents of the file
    /// located at the specified path.
    pub fn send_file(self, path: ArcPath, config: Option<OpenConfig>) -> (r: Route<
        RouteHandler<E, Call<SendFile>>,
    >)
        ensures
            r@.uri == self@.uri,
            r@.allowed_methods == self@.allowed_methods,
            r@.handler.allowed_methods == self@.allowed_methods,
            r@.handler.extractor == self@.extractor,
            r@.handler.endpoint.f.path == path,
            r@.handler.endpoint.f.config == config,
    {
        self.call(SendFile { path, config })
    }
}

impl<H> Route<H> {
    #[verifier::type_invariant]
    spec fn inv(self) -> bool {
        self.uri@.wf()
    }

    /// The pattern of the route.
    pub fn uri(&self) -> (u: &Uri)
        ensures
            u@ == self@.uri,
            u@.wf(),
    {
        proof {
            use_type_invariant(self);
        }
        &self.uri
    }

    /// The methods that the route serves; `None` stands for every method.
    pub fn methods(&self) -> (m: Option<AllowedMethods>)
        ensures
            m == self@.allowed_methods,
    {
        self.allowed_methods
    }

    /// The handler of the route.
    pub fn handler(&self) -> (h: &H)
        ensures
            *h == self@.handler,
    {
        &self.handler
    }

    /// A route for the pattern `uri` that accepts every method.
    pub fn new(uri: &str, handler: H) -> (r: Result<Self, PatternError>)
        ensures
            match parse_uri(uri.spec_bytes()) {
                Ok(u) => r is Ok && r->Ok_0@ == (RouteView {
                    uri: u,
                    allowed_methods: None,
                    handler,
                }),
                Err(e) => r is Err && r->Err_0 == e,
            },
    {
        match Uri::parse(uri) {
            Ok(uri) => Ok(Route { uri, allowed_methods: None, handler }),
            Err(e) => Err(e),
        }
    }

    /// Registers this route in `scope` of `app`.
    pub fn configure<M, S>(self, app: &mut AppInner<H, M, S>, scope: ScopeId) -> (r: Result<
        usize,
        AssemblyError,
    >)
        requires
            old(app).wf(),
            scope.0 < old(app)@.scopes.len(),
        ensures
            final(app).wf(),
            match old(app)@.registration(scope, self@.uri, self@.allowed_methods) {
                Err(e) => r == Err::<usize, AssemblyError>(e) && final(app)@ == old(app)@,
                Ok(full) => r is Ok && r->Ok_0 == old(app)@.endpoints.len() && old(app)@.routed(
                    final(app)@,
                    scope,
                    full,
                    self@.allowed_methods,
                    self@.handler,
                ),
            },
    {
        proof {
            use_type_invariant(&self);
        }
        app.register(scope, &self.uri, self.allowed_methods, self.handler)
    }
}

/// Where the handler of a route stands.
#[derive(Clone, Copy, Debug, PartialEq, Eq, Structural)]
pub enum HandleStage {
    /// The arguments are being extracted.
    First,
    /// The endpoint is being called.
    Second,
    /// The handler has returned.
    Finished,
}

/// How the step that the handler of a route has asked for went.
pub enum HandleEvent<A, O, X> {
    /// The step waits.
    NotReady,
    /// The extractors gave the arguments.
    Extracted(A),
    /// The endpoint gave its output.
    Called(O),
    /// The extractors or the endpoint failed.
    Failed(X),
}

/// What the handler of a route asks for.
pub enum HandleStep<A, O, X> {
    /// Refuse the request with the status 405.
    Reject,
    /// Run the extractors.
    Extract,
    /// Call the endpoint with these arguments.
    Call(A),
    /// Wait and poll the same step again.
    Wait,
    /// Return this output.
    Return(O),
    /// Return this failure.
    Fail(X),
    /// The handler was polled after it had returned, or was told of an
    /// event that the stage cannot have.
    Fault,
}

/// The first step of the handler of a route with the methods `allowed` on
/// a request with the method `m`: a method that the route does not serve is
/// refused before anything is extracted.
pub open spec fn handle_first<A, O, X>(allowed: Option<AllowedMethods>, m: Method) -> (
    HandleStage,
    HandleStep<A, O, X>,
) {
    match allowed {
        Some(s) if !s@.contains(m) => (HandleStage::Finished, HandleStep::Reject),
        _ => (HandleStage::First, HandleStep::Extract),
    }
}

/// The step that follows `event` at `stage`: the arguments go to the
/// endpoint, the output of the endpoint is returned, and the first failure
/// ends the handler.
pub open spec fn handle_next<A, O, X>(stage: HandleStage, event: HandleEvent<A, O, X>) -> (
    HandleStage,
    HandleStep<A, O, X>,
) {
    match (stage, event) {
        (HandleStage::Finished, _) => (HandleStage::Finished, HandleStep::Fault),
        (_, HandleEvent::NotReady) => (stage, HandleStep::Wait),
        (HandleStage::First, HandleEvent::Extracted(args)) => (
            HandleStage::Second,
            HandleStep::Call(args),
        ),
        (HandleStage::Second, HandleEvent::Called(o)) => (
            HandleStage::Finished,
            HandleStep::Return(o),
        ),
        (_, HandleEvent::Failed(x)) => (HandleStage::Finished, HandleStep::Fail(x)),
        _ => (HandleStage::Finished, HandleStep::Fault),
    }
}

impl<E, U> RouteHandler<E, U> {
    /// Starts the handler on a request with the method `m`.
    pub fn start<A, O, X>(&self, m: Method) -> (r: (HandleStage, HandleStep<A, O, X>))
        ensures
            r == handle_first::<A, O, X>(self.allowed_methods, m),
    {
        match &self.allowed_methods {
            Some(s) => {
                if !s.contains(m) {
                    return (HandleStage::Finished, HandleStep::Reject);
                }
            },
            None => {},
        }
        (HandleStage::First, HandleStep::Extract)
    }
}

impl HandleStage {
    /// Takes the report of the step that was asked for and names the next.
    pub fn advance<A, O, X>(self, event: HandleEvent<A, O, X>) -> (r: (
        HandleStage,
        HandleStep<A, O, X>,
    ))
        ensures
            r == handle_next(self, event),
    {
        match (self, event) {
            (HandleStage::Finished, _) => (HandleStage::Finished, HandleStep::Fault),
            (stage, HandleEvent::NotReady) => (stage, HandleStep::Wait),
            (HandleStage::First, HandleEvent::Extracted(args)) => (
                HandleStage::Second,
                HandleStep::Call(args),
            ),
            (HandleStage::Second, HandleEvent::Called(o)) => (
                HandleStage::Finished,
                HandleStep::Return(o),
            ),
            (_, HandleEvent::Failed(x)) => (HandleStage::Finished, HandleStep::Fail(x)),
            _ => (HandleStage::Finished, HandleStep::Fault),
        }
    }
}

} // verus!
