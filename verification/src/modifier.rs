//! Modifiers: what runs before and after the handlers of a scope.

use vstd::prelude::*;

verus! {

/// What a hook of a modifier has given: a result that is ready until it
/// is taken, or something to wait for.
pub enum HandleState<T, E, F> {
    Ready(Option<Result<T, E>>),
    Async(F),
}

/// What `Modifier::before_handle` returns.
pub struct BeforeHandle<E, F>(pub HandleState<(), E, F>);

/// What `Modifier::after_handle` returns.
pub struct AfterHandle<O, E, F>(pub HandleState<O, E, F>);

/// What a poll of a hook gives.
pub enum PollReady<T, E> {
    /// The result of the hook.
    Ready(Result<T, E>),
    /// The hook waits for what it wraps.
    Pending,
}

impl<T, E, F> HandleState<T, E, F> {
    /// Whether the result has been taken already.
    pub open spec fn spent(self) -> bool {
        self matches HandleState::Ready(None)
    }

    /// Polls the hook.  A result that is ready is handed out, once; a hook
    /// that wraps something waits for it.
    pub fn poll_ready(&mut self) -> (r: PollReady<T, E>)
        requires
            !old(self).spent(),
        ensures
            match *old(self) {
                HandleState::Ready(res) => r == PollReady::Ready(res->Some_0) && *final(self)
                    == HandleState::<T, E, F>::Ready(None),
                HandleState::Async(f) => r == PollReady::<T, E>::Pending && *final(self) == *old(
                    self,
                ),
            },
    {
        match self {
            HandleState::Ready(res) => {
                let taken = res.take();
                PollReady::Ready(taken.unwrap())
            },
            HandleState::Async(_) => PollReady::Pending,
        }
    }
}

impl<E, F> BeforeHandle<E, F> {
    /// A hook that lets the request pass: the framework goes on.
    pub fn ok() -> (b: Self)
        ensures
            b.0 == HandleState::<(), E, F>::Ready(Some(Ok(()))),
    {
        BeforeHandle(HandleState::Ready(Some(Ok(()))))
    }

    /// A hook that stops the request with an error: the framework goes to
    /// the error handling at once.
    pub fn err(err: E) -> (b: Self)
        ensures
            b.0 == HandleState::<(), E, F>::Ready(Some(Err(err))),
    {
        BeforeHandle(HandleState::Ready(Some(Err(err))))
    }

    /// A hook that waits for `future`.
    pub fn wrap_future(future: F) -> (b: Self)
        ensures
            b.0 == HandleState::<(), E, F>::Async(future),
    {
        BeforeHandle(HandleState::Async(future))
    }

    /// Polls the hook.
    pub fn poll_ready(&mut self) -> (r: PollReady<(), E>)
        requires
            !old(self).0.spent(),
        ensures
            match old(self).0 {
                HandleState::Ready(res) => r == PollReady::Ready(res->Some_0) && final(self).0
                    == HandleState::<(), E, F>::Ready(None),
                HandleState::Async(f) => r == PollReady::<(), E>::Pending && final(self).0 == old(
                    self,
                ).0,
            },
    {
        self.0.poll_ready()
    }
}

impl<O, E, F> AfterHandle<O, E, F> {
    /// A hook that gives `output`.
    pub fn ok(output: O) -> (a: Self)
        ensures
            a.0 == HandleState::<O, E, F>::Ready(Some(Ok(output))),
    {
        AfterHandle(HandleState::Ready(Some(Ok(output))))
    }

    /// A hook that fails with an error.
    pub fn err(err: E) -> (a: Self)
        ensures
            a.0 == HandleState::<O, E, F>::Ready(Some(Err(err))),
    {
        AfterHandle(HandleState::Ready(Some(Err(err))))
    }

    /// A hook that waits for `future`.
    pub fn wrap_future(future: F) -> (a: Self)
        ensures
            a.0 == HandleState::<O, E, F>::Async(future),
    {
        AfterHandle(HandleState::Async(future))
    }

    /// Polls the hook.
    pub fn poll_ready(&mut self) -> (r: PollReady<O, E>)
        requires
            !old(self).0.spent(),
        ensures
            match old(self).0 {
                HandleState::Ready(res) => r == PollReady::Ready(res->Some_0) && final(self).0
                    == HandleState::<O, E, F>::Ready(None),
                HandleState::Async(f) => r == PollReady::<O, E>::Pending && final(self).0 == old(
                    self,
                ).0,
            },
    {
        self.0.poll_ready()
    }
}

/// A modifier: its hooks run before and after the handlers of its scope.
pub trait Modifier<I, O, E, F, G> {
    /// Performs the process before calling the handler.
    ///
    /// By default, this method does nothing.
    fn before_handle(&self, input: &mut I) -> (b: BeforeHandle<E, F>)
        default_ensures
            b.0 == HandleState::<(), E, F>::Ready(Some(Ok(()))),
            *final(input) == *old(input),
    {
        BeforeHandle::ok()
    }

    /// Modifies the returned value from a handler.
    ///
    /// By default, this method does nothing and immediately returns the
    /// provided output.
    fn after_handle(&self, input: &mut I, output: O) -> (a: AfterHandle<O, E, G>)
        default_ensures
            a.0 == HandleState::<O, E, G>::Ready(Some(Ok(output))),
            *final(input) == *old(input),
    {
        AfterHandle::ok(output)
    }
}

/// The modifier that does nothing: requests pass, and outputs stay as they
/// are.
pub struct Identity;

impl<I, O, E, F, G> Modifier<I, O, E, F, G> for Identity {

}

} // verus!
