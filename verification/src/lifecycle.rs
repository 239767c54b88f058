//! The life of one request: recognition, the modifiers around the handler,
//! the interception of errors, and the reply.
//!
//! The task is a state machine that never waits: it tells its caller what to
//! run next, and the caller reports how that went.

use vstd::prelude::*;
use vstd::string::StringSliceAdditionalSpecFns;
use crate::app::{AppInner, Dispatch, DispatchView, Fallback, FallbackView, ModifierRef};
use crate::error::Failure;
use crate::method::{AllowedMethods, Method};
use crate::recognizer::{Captures, CapturesView};

verus! {

/// Where a request in flight stands.
#[derive(Clone, Copy, Debug, PartialEq, Eq, Structural)]
pub enum Stage {
    /// The before-hook of the modifier at this place of the chain runs.
    Before(usize),
    /// The handler runs.
    Handler,
    /// The after-hook of the modifier at this place of the chain runs.
    After(usize),
    /// The error handler runs.
    Recovering,
}

/// The state of the task.
#[derive(Clone, Copy, Debug, PartialEq, Eq, Structural)]
pub enum AppFutureState {
    /// Nothing has been decided yet.
    Init,
    /// The request is being served.
    InFlight(Stage),
    /// The task has ended.
    Done,
}

/// What the handler stage runs.
#[derive(Clone, Copy, Debug)]
pub enum Target {
    /// The handler of the route with this identifier.
    Endpoint(usize),
    /// A fallback.
    Fallback(Fallback),
    /// Nothing: the stage fails with the status 404.
    NotFound,
}

/// What the handler stage runs, as a mathematical value.
pub enum TargetView {
    Endpoint(usize),
    Fallback(FallbackView),
    NotFound,
}

impl View for Target {
    type V = TargetView;

    open spec fn view(&self) -> TargetView {
        match self {
            Target::Endpoint(id) => TargetView::Endpoint(*id),
            Target::Fallback(f) => TargetView::Fallback(f@),
            Target::NotFound => TargetView::NotFound,
        }
    }
}

/// The failure that the handler stage ends in where nothing can serve the
/// request: `NotFound` without a target, `MethodNotAllowed` for a method
/// that is refused.  Every other target has something to run or to answer.
pub open spec fn target_failure(t: Target) -> Option<Failure> {
    match t {
        Target::NotFound => Some(Failure::NotFound),
        Target::Fallback(Fallback::MethodNotAllowed { .. }) => Some(Failure::MethodNotAllowed),
        _ => None,
    }
}

impl Target {
    /// The failure that the handler stage ends in, if it can only fail.
    pub fn failure(&self) -> (r: Option<Failure>)
        ensures
            r == target_failure(*self),
    {
        match self {
            Target::NotFound => Some(Failure::NotFound),
            Target::Fallback(Fallback::MethodNotAllowed { .. }) => Some(Failure::MethodNotAllowed),
            _ => None,
        }
    }
}

/// How the stage that was run last went.
pub enum Event<O, E, C> {
    /// The stage waits; it is to be polled again.
    NotReady,
    /// A before-hook lets the request pass.
    Passed,
    /// The handler or an after-hook gave an output.
    Output(O),
    /// A hook or the handler failed.
    Failed(E),
    /// The error handler gave an output.
    Recovered(O),
    /// The error handler failed.
    Unrecovered(C),
}

/// A failure that ends the connection.
pub enum Critical<C> {
    /// The error handler failed.
    ErrorHandler(C),
    /// The task was polled before its start or after its end, or was told of
    /// an event that the stage in flight cannot have.
    Protocol,
}

/// What the caller is to do next.
pub enum Action<O, E, C> {
    /// Run the before-hook of this modifier.
    BeforeHandle(ModifierRef),
    /// Run the handler stage.
    Handle(Target),
    /// Run the after-hook of this modifier on this output.
    AfterHandle(ModifierRef, O),
    /// Hand this error to the error handler.
    HandleError(E),
    /// Finish the headers of this output and send it.
    Reply(O),
    /// Give up the connection.
    Abort(Critical<C>),
    /// Wait and poll the same stage again.
    Suspend,
}

/// The status that a fallback answers with, and the methods that its
/// `Allow` header names.
#[derive(Clone, Copy, Debug)]
pub struct FallbackReply {
    pub status: u16,
    pub allow: Option<AllowedMethods>,
}

/// What the handler stage of a fallback answers: `200` with the allowed
/// methods for implicit `OPTIONS`, the failure `405` with them for a method
/// that is not allowed.  A default handler answers for itself.
pub open spec fn fallback_reply(f: Fallback) -> Option<FallbackReply> {
    match f {
        Fallback::Options { allow } => Some(FallbackReply { status: 200, allow: Some(allow) }),
        Fallback::MethodNotAllowed { allow } => Some(
            FallbackReply { status: 405, allow: Some(allow) },
        ),
        Fallback::Default { .. } => None,
    }
}

/// The answer of a fallback that needs no handler.
pub fn handle_fallback(f: &Fallback) -> (r: Option<FallbackReply>)
    ensures
        r == fallback_reply(*f),
{
    match f {
        Fallback::Options { allow } => Some(FallbackReply { status: 200, allow: Some(*allow) }),
        Fallback::MethodNotAllowed { allow } => Some(
            FallbackReply { status: 405, allow: Some(*allow) },
        ),
        Fallback::Default { .. } => None,
    }
}

/// What the handler stage runs under the decision `d`.
pub open spec fn target_of(d: DispatchView) -> TargetView {
    match d {
        DispatchView::RunHandler { endpoint, .. } => TargetView::Endpoint(endpoint),
        DispatchView::RunFallback { fallback, .. } => TargetView::Fallback(fallback),
        DispatchView::NotFound { .. } => TargetView::NotFound,
    }
}

/// The ranges that the decision `d` has bound.
pub open spec fn captures_of(d: DispatchView) -> Option<CapturesView> {
    match d {
        DispatchView::RunHandler { captures, .. } => Some(captures),
        _ => None,
    }
}

/// The first stage and the first action: the before-hook of the outermost
/// modifier, or the handler if no modifier applies.
pub open spec fn first_step<O, E, C>(chain: Seq<ModifierRef>, target: Target) -> (
    AppFutureState,
    Action<O, E, C>,
) {
    if chain.len() > 0 {
        (AppFutureState::InFlight(Stage::Before(0)), Action::BeforeHandle(chain[0]))
    } else {
        (AppFutureState::InFlight(Stage::Handler), Action::Handle(target))
    }
}

/// What follows an output of the handler stage or of the after-hook at
/// place `above`: the after-hook of the next modifier outwards, or the
/// reply.
pub open spec fn after_output<O, E, C>(chain: Seq<ModifierRef>, above: int, o: O) -> (
    AppFutureState,
    Action<O, E, C>,
) {
    if 0 < above <= chain.len() {
        (
            AppFutureState::InFlight(Stage::After((above - 1) as usize)),
            Action::AfterHandle(chain[above - 1], o),
        )
    } else {
        (AppFutureState::Done, Action::Reply(o))
    }
}

/// The transition of the task: the state and the action that follow when
/// the stage in flight reports `event`.
///
/// Before-hooks run from the outermost modifier inwards, then the handler,
/// then the after-hooks from the innermost modifier outwards.  A failure of
/// any of them goes to the error handler, once; its output is replied, and
/// its failure ends the connection.  A stage that waits stays where it is.
pub open spec fn step<O, E, C>(
    chain: Seq<ModifierRef>,
    target: Target,
    state: AppFutureState,
    event: Event<O, E, C>,
) -> (AppFutureState, Action<O, E, C>) {
    match state {
        AppFutureState::InFlight(stage) => match (stage, event) {
            (_, Event::NotReady) => (state, Action::Suspend),
            (Stage::Before(i), Event::Passed) => if i + 1 < chain.len() {
                (
                    AppFutureState::InFlight(Stage::Before((i + 1) as usize)),
                    Action::BeforeHandle(chain[i + 1]),
                )
            } else {
                (AppFutureState::InFlight(Stage::Handler), Action::Handle(target))
            },
            (Stage::Handler, Event::Output(o)) => after_output(chain, chain.len() as int, o),
            (Stage::After(i), Event::Output(o)) => after_output(chain, i as int, o),
            (Stage::Before(_), Event::Failed(e)) => (
                AppFutureState::InFlight(Stage::Recovering),
                Action::HandleError(e),
            ),
            (Stage::Handler, Event::Failed(e)) => (
                AppFutureState::InFlight(Stage::Recovering),
                Action::HandleError(e),
            ),
            (Stage::After(_), Event::Failed(e)) => (
                AppFutureState::InFlight(Stage::Recovering),
                Action::HandleError(e),
            ),
            (Stage::Recovering, Event::Recovered(o)) => (AppFutureState::Done, Action::Reply(o)),
            (Stage::Recovering, Event::Unrecovered(c)) => (
                AppFutureState::Done,
                Action::Abort(Critical::ErrorHandler(c)),
            ),
            _ => (AppFutureState::Done, Action::Abort(Critical::Protocol)),
        },
        _ => (AppFutureState::Done, Action::Abort(Critical::Protocol)),
    }
}

/// The task of one request as a mathematical value.
pub struct AppFutureView {
    pub state: AppFutureState,
    pub chain: Seq<ModifierRef>,
    pub target: Target,
    pub captures: Option<CapturesView>,
}

impl AppFutureView {
    /// The invariant: a hook in flight is a hook of the chain.
    pub open spec fn wf(self) -> bool {
        match self.state {
            AppFutureState::InFlight(Stage::Before(i)) => i < self.chain.len(),
            AppFutureState::InFlight(Stage::After(i)) => i < self.chain.len(),
            _ => true,
        }
    }
}

/// The task that serves one request.
pub struct AppFuture {
    state: AppFutureState,
    chain: Vec<ModifierRef>,
    target: Target,
    captures: Option<Captures>,
}

impl View for AppFuture {
    type V = AppFutureView;

    closed spec fn view(&self) -> AppFutureView {
        AppFutureView {
            state: self.state,
            chain: self.chain@,
            target: self.target,
            captures: match self.captures {
                Some(c) => Some(c@),
                None => None,
            },
        }
    }
}

impl AppFuture {
    /// A task that has not started.
    pub fn new() -> (f: AppFuture)
        ensures
            f@.state == AppFutureState::Init,
            f@.chain.len() == 0,
            f@.target is NotFound,
            f@.captures.is_none(),
            f@.wf(),
    {
        AppFuture {
            state: AppFutureState::Init,
            chain: Vec::new(),
            target: Target::NotFound,
            captures: None,
        }
    }

    /// The state of the task.
    pub fn state(&self) -> (s: AppFutureState)
        ensures
            s == self@.state,
    {
        self.state
    }

    /// What the handler stage runs.
    pub fn target(&self) -> (t: Target)
        ensures
            t == self@.target,
    {
        self.target
    }

    /// The route that was matched, if one was.
    pub fn endpoint_id(&self) -> (r: Option<usize>)
        ensures
            r == (match self@.target {
                Target::Endpoint(id) => Some(id),
                _ => None,
            }),
    {
        match self.target {
            Target::Endpoint(id) => Some(id),
            _ => None,
        }
    }

    /// The ranges that the match has bound, if a route was matched.
    pub fn captures(&self) -> (r: Option<&Captures>)
        ensures
            match self@.captures {
                Some(c) => r.is_some() && r->Some_0@ == c,
                None => r.is_none(),
            },
    {
        self.captures.as_ref()
    }

    /// The modifiers around the handler, outermost first.
    pub fn chain(&self) -> (c: &Vec<ModifierRef>)
        ensures
            c@ == self@.chain,
    {
        &self.chain
    }

    /// Starts the task: resolves the request, fixes what the handler stage
    /// runs and the modifiers around it, and names the first action.  A
    /// task that has started already gives up.
    pub fn process_recognize<H, M, S, O, E, C>(
        &mut self,
        app: &AppInner<H, M, S>,
        path: &str,
        method: Method,
    ) -> (a: Action<O, E, C>)
        requires
            app.wf(),
        ensures
            final(self)@.wf(),
            old(self)@.state != AppFutureState::Init ==> final(self)@.state == AppFutureState::Done
                && a == Action::<O, E, C>::Abort(Critical::Protocol),
            old(self)@.state == AppFutureState::Init ==> {
                let d = app@.decide(
                    app@.resolve(path.spec_bytes(), method),
                    path.spec_bytes(),
                    method,
                );
                &&& app@.admits(d)
                &&& final(self)@.target@ == target_of(d)
                &&& final(self)@.captures == captures_of(d)
                &&& final(self)@.chain == app@.modifier_chain(app@.scope_of(d))
                &&& (final(self)@.state, a) == first_step::<O, E, C>(
                    final(self)@.chain,
                    final(self)@.target,
                )
            },
    {
        match self.state {
            AppFutureState::Init => {},
            _ => {
                self.state = AppFutureState::Done;
                return Action::Abort(Critical::Protocol);
            },
        }
        let d = app.route_request(path, method);
        let scope = match &d {
            Dispatch::RunHandler { endpoint, .. } => app.endpoint(*endpoint).scope,
            Dispatch::RunFallback { scope, .. } => *scope,
            Dispatch::NotFound { scope } => *scope,
        };
        proof {
            app.lemma_endpoint_scope(d@);
        }
        self.chain = app.modifier_chain(scope);
        match d {
            Dispatch::RunHandler { endpoint, captures } => {
                self.target = Target::Endpoint(endpoint);
                self.captures = Some(captures);
            },
            Dispatch::RunFallback { fallback, .. } => {
                self.target = Target::Fallback(fallback);
                self.captures = None;
            },
            Dispatch::NotFound { .. } => {
                self.target = Target::NotFound;
                self.captures = None;
            },
        }
        if self.chain.len() > 0 {
            self.state = AppFutureState::InFlight(Stage::Before(0));
            Action::BeforeHandle(self.chain[0])
        } else {
            self.state = AppFutureState::InFlight(Stage::Handler);
            Action::Handle(self.target)
        }
    }

    /// What follows an output of the stage above place `above`.
    fn output_above<O, E, C>(&mut self, above: usize, o: O) -> (a: Action<O, E, C>)
        requires
            above <= old(self)@.chain.len(),
        ensures
            final(self)@.wf(),
            final(self)@.chain == old(self)@.chain,
            final(self)@.target == old(self)@.target,
            final(self)@.captures == old(self)@.captures,
            (final(self)@.state, a) == after_output::<O, E, C>(old(self)@.chain, above as int, o),
    {
        if above > 0 {
            self.state = AppFutureState::InFlight(Stage::After(above - 1));
            Action::AfterHandle(self.chain[above - 1], o)
        } else {
            self.state = AppFutureState::Done;
            Action::Reply(o)
        }
    }

    /// Takes the report of the stage in flight and names the next action.
    pub fn poll<O, E, C>(&mut self, event: Event<O, E, C>) -> (a: Action<O, E, C>)
        requires
            old(self)@.wf(),
        ensures
            final(self)@.wf(),
            final(self)@.chain == old(self)@.chain,
            final(self)@.target == old(self)@.target,
            final(self)@.captures == old(self)@.captures,
            (final(self)@.state, a) == step(
                old(self)@.chain,
                old(self)@.target,
                old(self)@.state,
                event,
            ),
    {
        let stage = match self.state {
            AppFutureState::InFlight(stage) => stage,
            _ => {
                self.state = AppFutureState::Done;
                return Action::Abort(Critical::Protocol);
            },
        };
        match (stage, event) {
            (_, Event::NotReady) => Action::Suspend,
            (Stage::Before(i), Event::Passed) => {
                if self.chain.len() > 0 && i < self.chain.len() - 1 {
                    self.state = AppFutureState::InFlight(Stage::Before(i + 1));
                    Action::BeforeHandle(self.chain[i + 1])
                } else {
                    self.state = AppFutureState::InFlight(Stage::Handler);
                    Action::Handle(self.target)
                }
            },
            (Stage::Handler, Event::Output(o)) => {
                let n = self.chain.len();
                self.output_above(n, o)
            },
            (Stage::After(i), Event::Output(o)) => self.output_above(i, o),
            (Stage::Before(_), Event::Failed(e)) => {
                self.state = AppFutureState::InFlight(Stage::Recovering);
                Action::HandleError(e)
            },
            (Stage::Handler, Event::Failed(e)) => {
                self.state = AppFutureState::InFlight(Stage::Recovering);
                Action::HandleError(e)
            },
            (Stage::After(_), Event::Failed(e)) => {
                self.state = AppFutureState::InFlight(Stage::Recovering);
                Action::HandleError(e)
            },
            (Stage::Recovering, Event::Recovered(o)) => {
                self.state = AppFutureState::Done;
                Action::Reply(o)
            },
            (Stage::Recovering, Event::Unrecovered(c)) => {
                self.state = AppFutureState::Done;
                Action::Abort(Critical::ErrorHandler(c))
            },
            _ => {
                self.state = AppFutureState::Done;
                Action::Abort(Critical::Protocol)
            },
        }
    }
}

/// The state of a task with `n` modifiers after `k` stages have gone well.
pub open spec fn onion_state(n: nat, k: int) -> AppFutureState {
    if k < n {
        AppFutureState::InFlight(Stage::Before(k as usize))
    } else if k == n {
        AppFutureState::InFlight(Stage::Handler)
    } else if k <= 2 * n {
        AppFutureState::InFlight(Stage::After((2 * n - k) as usize))
    } else {
        AppFutureState::Done
    }
}

/// The action that starts stage `k` of a task whose stages all go well: the
/// before-hooks in the order of the chain, the handler, the after-hooks in
/// the reverse order with the output `o`, and the reply.
pub open spec fn onion_action<O, E, C>(
    chain: Seq<ModifierRef>,
    target: Target,
    k: int,
    o: O,
) -> Action<O, E, C> {
    if k < chain.len() {
        Action::BeforeHandle(chain[k])
    } else if k == chain.len() {
        Action::Handle(target)
    } else if k <= 2 * chain.len() {
        Action::AfterHandle(chain[2 * chain.len() - k], o)
    } else {
        Action::Reply(o)
    }
}

/// The report of stage `k` that has gone well.
pub open spec fn onion_event<O, E, C>(n: nat, k: int, o: O) -> Event<O, E, C> {
    if k < n {
        Event::Passed
    } else {
        Event::Output(o)
    }
}

/// While every stage goes well, the before-hooks run
/// from the outermost modifier to the innermost, then the handler, then the
/// after-hooks from the innermost modifier to the outermost, then the
/// reply.
pub proof fn lemma_onion_order<O, E, C>(chain: Seq<ModifierRef>, target: Target, k: int, o: O)
    requires
        0 <= k <= 2 * chain.len(),
        chain.len() <= usize::MAX,
    ensures
        first_step::<O, E, C>(chain, target) == (
            onion_state(chain.len(), 0),
            onion_action::<O, E, C>(chain, target, 0, o),
        ),
        step(
            chain,
            target,
            onion_state(chain.len(), k),
            onion_event::<O, E, C>(chain.len(), k, o),
        ) == (onion_state(chain.len(), k + 1), onion_action::<O, E, C>(chain, target, k + 1, o)),
{
}

/// A failure of a hook or of the handler goes to the error
/// handler and nowhere else; the output of the error handler is replied;
/// its failure gives up the connection; and a task that has ended stays
/// ended.
pub proof fn lemma_error_recovery<O, E, C>(
    chain: Seq<ModifierRef>,
    target: Target,
    stage: Stage,
    e: E,
    o: O,
    c: C,
    any: Event<O, E, C>,
)
    ensures
        stage != Stage::Recovering ==> step::<O, E, C>(
            chain,
            target,
            AppFutureState::InFlight(stage),
            Event::Failed(e),
        ) == (AppFutureState::InFlight(Stage::Recovering), Action::<O, E, C>::HandleError(e)),
        step::<O, E, C>(
            chain,
            target,
            AppFutureState::InFlight(Stage::Recovering),
            Event::Recovered(o),
        ) == (AppFutureState::Done, Action::<O, E, C>::Reply(o)),
        step::<O, E, C>(
            chain,
            target,
            AppFutureState::InFlight(Stage::Recovering),
            Event::Unrecovered(c),
        ) == (AppFutureState::Done, Action::<O, E, C>::Abort(Critical::ErrorHandler(c))),
        step::<O, E, C>(chain, target, AppFutureState::Done, any) == (
            AppFutureState::Done,
            Action::<O, E, C>::Abort(Critical::Protocol),
        ),
{
}

} // verus!
