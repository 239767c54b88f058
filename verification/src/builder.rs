//! The assembly of an application: scopes are mounted, routes registered,
//! and state, modifiers and default handlers set; the first failure is kept
//! and reported when the assembly is finished.

use vstd::prelude::*;
use vstd::string::StringSliceAdditionalSpecFns;
use crate::app::{AppInner, AssemblyError, Config};
use crate::route::Route;
use crate::scope::ScopeId;
use crate::service::AppBase;
use crate::uri::{parse_uri, Uri};

verus! {

/// Something that is set in a scope.
pub enum Directive<H, M, S> {
    /// A value of the state with this key.
    State(u64, S),
    /// A modifier.
    Modifier(M),
    /// The default handler.
    Fallback(H),
}

/// A directive that registers `value` as the state `key`, to be shared in a
/// scope.
pub fn state<H, M, S>(key: u64, value: S) -> (d: Directive<H, M, S>)
    ensures
        d == Directive::<H, M, S>::State(key, value),
{
    Directive::State(key, value)
}

/// A directive that registers the modifier `m` in a scope.
pub fn modifier<H, M, S>(m: M) -> (d: Directive<H, M, S>)
    ensures
        d == Directive::<H, M, S>::Modifier(m),
{
    Directive::Modifier(m)
}

/// A directive that registers `handler` as the default handler of a
/// scope.
pub fn fallback<H, M, S>(handler: H) -> (d: Directive<H, M, S>)
    ensures
        d == Directive::<H, M, S>::Fallback(handler),
{
    Directive::Fallback(handler)
}

/// An application under assembly.
pub struct AppBuilder<H, M, S> {
    inner: AppInner<H, M, S>,
    error: Option<AssemblyError>,
}

/// A builder of an application with the default policies: `HEAD` falls
/// back on `GET`, and `OPTIONS` is not answered implicitly.
pub fn app<H, M, S>() -> (b: AppBuilder<H, M, S>)
    ensures
        b.wf(),
        b.error().is_none(),
        b.inner()@.is_fresh(),
        b.inner()@.fallback_head,
        !b.inner()@.fallback_options,
{
    AppBuilder::new(Config { fallback_head: true, fallback_options: false })
}

impl<H, M, S> AppBuilder<H, M, S> {
    /// What has been assembled so far.
    pub closed spec fn inner(&self) -> AppInner<H, M, S> {
        self.inner
    }

    /// The first failure of the assembly.
    pub closed spec fn error(&self) -> Option<AssemblyError> {
        self.error
    }

    /// The invariant of the builder.
    pub open spec fn wf(&self) -> bool {
        self.inner().wf()
    }

    /// A builder of an application with the policies `config`.
    pub fn new(config: Config) -> (b: Self)
        ensures
            b.wf(),
            b.error().is_none(),
            b.inner()@.is_fresh(),
            b.inner()@.fallback_head == config.fallback_head,
            b.inner()@.fallback_options == config.fallback_options,
    {
        AppBuilder { inner: AppInner::new(config), error: None }
    }

    /// The number of scopes mounted so far, the root among them.
    pub fn num_scopes(&self) -> (n: usize)
        ensures
            n == self.inner()@.scopes.len(),
    {
        self.inner.num_scopes()
    }

    /// Mounts a scope under `parent` with the prefix `prefix` and returns
    /// it.  After a failure nothing is mounted and `parent` is returned.
    pub fn mount(&mut self, parent: ScopeId, prefix: &str) -> (id: ScopeId)
        requires
            old(self).wf(),
            parent.0 < old(self).inner()@.scopes.len(),
        ensures
            final(self).wf(),
            id.0 < final(self).inner()@.scopes.len(),
            old(self).error().is_some() ==> final(self).error() == old(self).error() && final(self).inner()@ == old(self).inner()@ && id == parent,
            old(self).error().is_none() ==> match parse_uri(prefix.spec_bytes()) {
                Err(e) => final(self).error() == Some(AssemblyError::Pattern(e)) && final(self).inner()@ == old(self).inner()@ && id == parent,
                Ok(p) => match old(self).inner()@.scopes[parent.0 as int].prefix@.join(p) {
                    Err(e) => final(self).error() == Some(AssemblyError::Pattern(e)) && final(self).inner()@ == old(self).inner()@ && id == parent,
                    Ok(full) => final(self).error().is_none() && id.0 == old(self).inner()@.scopes.len() && old(self).inner()@.mounted(final(self).inner()@, parent, full),
                },
            },
    {
        if self.error.is_some() {
            return parent;
        }
        let uri = match Uri::parse(prefix) {
            Ok(uri) => uri,
            Err(e) => {
                self.error = Some(AssemblyError::Pattern(e));
                return parent;
            },
        };
        match self.inner.mount(parent, &uri) {
            Ok(id) => id,
            Err(e) => {
                self.error = Some(e);
                parent
            },
        }
    }

    /// Registers `route` in `scope`.  After a failure nothing is
    /// registered.
    pub fn route(&mut self, scope: ScopeId, route: Route<H>)
        requires
            old(self).wf(),
            scope.0 < old(self).inner()@.scopes.len(),
        ensures
            final(self).wf(),
            final(self).inner()@.scopes == old(self).inner()@.scopes,
            old(self).error().is_some() ==> final(self).error() == old(self).error() && final(self).inner()@ == old(self).inner()@,
            old(self).error().is_none() ==> match old(self).inner()@.registration(
                scope,
                route@.uri,
                route@.allowed_methods,
            ) {
                Err(e) => final(self).error() == Some(e) && final(self).inner()@ == old(self).inner()@,
                Ok(full) => final(self).error().is_none() && old(self).inner()@.routed(
                    final(self).inner()@,
                    scope,
                    full,
                    route@.allowed_methods,
                    route@.handler,
                ),
            },
    {
        if self.error.is_some() {
            return ;
        }
        match route.configure(&mut self.inner, scope) {
            Ok(_) => {},
            Err(e) => {
                self.error = Some(e);
            },
        }
    }

    /// Sets what `directive` names in `scope`.  After a failure nothing is
    /// set.
    pub fn with(&mut self, scope: ScopeId, directive: Directive<H, M, S>)
        requires
            old(self).wf(),
            scope.0 < old(self).inner()@.scopes.len(),
        ensures
            final(self).wf(),
            final(self).error() == old(self).error(),
            old(self).error().is_some() ==> final(self).inner()@ == old(self).inner()@,
            old(self).error().is_none() ==> old(self).inner()@.changed_in(final(self).inner()@, scope)
                && ({
                let before = old(self).inner()@.scopes[scope.0 as int];
                let after = final(self).inner()@.scopes[scope.0 as int];
                match directive {
                    Directive::State(key, value) => after.states@ == seq![(key, value)]
                        + before.states@ && after.modifiers == before.modifiers
                        && after.default_handler == before.default_handler && final(self).inner()@.state_at(key, scope.0 as int) == Some(value),
                    Directive::Modifier(m) => after.modifiers@ == before.modifiers@.push(m)
                        && after.states == before.states && after.default_handler
                        == before.default_handler,
                    Directive::Fallback(h) => after.default_handler == Some(h) && after.states
                        == before.states && after.modifiers == before.modifiers && final(self).inner()@.default_owner(scope.0 as int) == Some(scope.0 as int),
                }
            }),
    {
        if self.error.is_some() {
            return ;
        }
        match directive {
            Directive::State(key, value) => {
                self.inner.set_state(scope, key, value);
            },
            Directive::Modifier(m) => {
                let _ = self.inner.add_modifier(scope, m);
            },
            Directive::Fallback(h) => {
                self.inner.set_default_handler(scope, h);
            },
        }
    }

    /// Finishes the assembly: the application, or the first failure.
    pub fn finish(self) -> (r: Result<AppBase<H, M, S>, AssemblyError>)
        requires
            self.wf(),
        ensures
            match self.error() {
                Some(e) => r is Err && r->Err_0 == e,
                None => r is Ok && *r->Ok_0.data() == self.inner(),
            },
    {
        match self.error {
            Some(e) => Err(e),
            None => Ok(AppBase::new(self.inner)),
        }
    }
}

} // verus!
