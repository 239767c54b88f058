//! The assembled application and the services that it hands out.

use std::sync::Arc;
use vstd::prelude::*;
use crate::app::AppInner;
use crate::lifecycle::{AppFuture, AppFutureState};

verus! {

/// Another handle to the value that `a` shares, by `Arc::clone`: the new
/// handle points to the same value.
#[verifier::external_body]
pub(crate) fn share<T>(a: &Arc<T>) -> (r: Arc<T>)
    ensures
        *r == **a,
{
    Arc::clone(a)
}

/// The main type representing an HTTP application.
pub struct AppBase<H, M, S> {
    inner: Arc<AppInner<H, M, S>>,
}

/// An application together with what modifies the services made of it.
pub struct WithModifyService<H, M, S, X> {
    inner: Arc<AppInner<H, M, S>>,
    modify_service: X,
}

/// The service that serves the requests of one connection.
pub struct AppService<H, M, S> {
    inner: Arc<AppInner<H, M, S>>,
}

impl<H, M, S> AppBase<H, M, S> {
    #[verifier::type_invariant]
    spec fn inv(self) -> bool {
        self.inner.wf()
    }

    /// The routing data of the application.
    pub closed spec fn data(&self) -> &AppInner<H, M, S> {
        &*self.inner
    }

    /// The application with the routing data `inner`.
    pub fn new(inner: AppInner<H, M, S>) -> (app: Self)
        requires
            inner.wf(),
        ensures
            *app.data() == inner,
    {
        AppBase { inner: Arc::new(inner) }
    }

    /// The routing data of the application.
    pub fn inner(&self) -> (r: &AppInner<H, M, S>)
        ensures
            r == self.data(),
            r.wf(),
    {
        proof {
            use_type_invariant(self);
        }
        &*self.inner
    }

    /// Converts the application into a maker of services that `modify_service`
    /// modifies.
    pub fn with_modify_service<X>(self, modify_service: X) -> (w: WithModifyService<H, M, S, X>)
        ensures
            w.data() == self.data(),
            *w.modifier() == modify_service,
    {
        proof {
            use_type_invariant(&self);
        }
        WithModifyService { inner: self.inner, modify_service }
    }

    /// Makes a service for a connection.
    pub fn make_service(&self) -> (s: AppService<H, M, S>)
        ensures
            *s.data() == *self.data(),
    {
        proof {
            use_type_invariant(self);
        }
        AppService { inner: share(&self.inner) }
    }
}

impl<H, M, S, X> WithModifyService<H, M, S, X> {
    #[verifier::type_invariant]
    spec fn inv(self) -> bool {
        self.inner.wf()
    }

    /// The routing data of the application.
    pub closed spec fn data(&self) -> &AppInner<H, M, S> {
        &*self.inner
    }

    /// What modifies the services.
    pub closed spec fn modifier(&self) -> &X {
        &self.modify_service
    }

    /// Makes a service for a connection, and hands it out with what is to
    /// modify it.
    pub fn make_service(&self) -> (r: (AppService<H, M, S>, &X))
        ensures
            *r.0.data() == *self.data(),
            r.1 == self.modifier(),
    {
        proof {
            use_type_invariant(self);
        }
        (AppService { inner: share(&self.inner) }, &self.modify_service)
    }
}

impl<H, M, S> AppService<H, M, S> {
    #[verifier::type_invariant]
    spec fn inv(self) -> bool {
        self.inner.wf()
    }

    /// The routing data of the application.
    pub closed spec fn data(&self) -> &AppInner<H, M, S> {
        &*self.inner
    }

    /// The routing data of the application.
    pub fn inner(&self) -> (r: &AppInner<H, M, S>)
        ensures
            r == self.data(),
            r.wf(),
    {
        proof {
            use_type_invariant(self);
        }
        &*self.inner
    }

    /// Whether the service can take a request: it always can.
    pub fn poll_ready(&self) -> (ready: bool)
        ensures
            ready,
    {
        true
    }

    /// Makes the task for a request.
    pub fn call(&self) -> (f: AppFuture)
        ensures
            f@.state == AppFutureState::Init,
            f@.wf(),
    {
        AppFuture::new()
    }
}

} // verus!
