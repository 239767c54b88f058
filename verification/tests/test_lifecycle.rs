use tsukuyomi::app::{AppInner, Config, Fallback};
use tsukuyomi::error::Failure;
use tsukuyomi::lifecycle::{Action, AppFuture, AppFutureState, Critical, Event, Stage, Target};
use tsukuyomi::method::{AllowedMethods, Method};
use tsukuyomi::scope::ScopeId;
use tsukuyomi::uri::Uri;

type App = AppInner<&'static str, &'static str, &'static str>;
type Act = Action<&'static str, Failure, &'static str>;
type Ev = Event<&'static str, Failure, &'static str>;

fn pattern(s: &str) -> Uri {
    Uri::parse(s).unwrap()
}

fn app_with_two_modifiers() -> App {
    let mut app: App = AppInner::new(Config { fallback_head: true, fallback_options: false });
    app.add_modifier(ScopeId::root(), "Outer");
    let inner = app.mount(ScopeId::root(), &pattern("/in")).unwrap();
    app.add_modifier(inner, "Inner");
    app.register(inner, &pattern("/x"), Some(AllowedMethods::single(Method::Get)), "handler").unwrap();
    app
}

fn modifier_of(app: &App, action: &Act) -> &'static str {
    match action {
        Action::BeforeHandle(m) => *app.modifier(*m),
        Action::AfterHandle(m, _) => *app.modifier(*m),
        _ => panic!("the action runs no modifier"),
    }
}

#[test]
fn modifier_ordering() {
    let app = app_with_two_modifiers();
    let mut task = AppFuture::new();
    assert_eq!(task.state(), AppFutureState::Init);

    let a: Act = task.process_recognize(&app, "/in/x", Method::Get);
    assert!(matches!(a, Action::BeforeHandle(_)));
    assert_eq!(modifier_of(&app, &a), "Outer");
    assert_eq!(task.state(), AppFutureState::InFlight(Stage::Before(0)));
    assert_eq!(task.endpoint_id(), Some(0));

    let a: Act = task.poll(Ev::Passed);
    assert!(matches!(a, Action::BeforeHandle(_)));
    assert_eq!(modifier_of(&app, &a), "Inner");

    let a: Act = task.poll(Ev::Passed);
    assert!(matches!(a, Action::Handle(Target::Endpoint(0))));
    assert_eq!(task.state(), AppFutureState::InFlight(Stage::Handler));

    let a: Act = task.poll(Ev::Output("from handler"));
    assert!(matches!(a, Action::AfterHandle(_, "from handler")));
    assert_eq!(modifier_of(&app, &a), "Inner");

    let a: Act = task.poll(Ev::Output("from inner"));
    assert!(matches!(a, Action::AfterHandle(_, "from inner")));
    assert_eq!(modifier_of(&app, &a), "Outer");

    let a: Act = task.poll(Ev::Output("from outer"));
    assert!(matches!(a, Action::Reply("from outer")));
    assert_eq!(task.state(), AppFutureState::Done);
}

#[test]
fn error_recovery() {
    let app = app_with_two_modifiers();
    let mut task = AppFuture::new();
    let _: Act = task.process_recognize(&app, "/in/x", Method::Get);
    let _: Act = task.poll(Ev::Passed);
    let _: Act = task.poll(Ev::Passed);

    let a: Act = task.poll(Ev::Failed(Failure::BadRequest));
    assert!(matches!(a, Action::HandleError(Failure::BadRequest)));
    assert_eq!(task.state(), AppFutureState::InFlight(Stage::Recovering));

    let a: Act = task.poll(Ev::Recovered("from the error handler"));
    assert!(matches!(a, Action::Reply("from the error handler")));
    assert_eq!(task.state(), AppFutureState::Done);
}

#[test]
fn failing_before_hook_skips_the_handler() {
    let app = app_with_two_modifiers();
    let mut task = AppFuture::new();
    let _: Act = task.process_recognize(&app, "/in/x", Method::Get);
    let a: Act = task.poll(Ev::Failed(Failure::InternalServerError));
    assert!(matches!(a, Action::HandleError(Failure::InternalServerError)));
}

#[test]
fn failing_error_handler_is_critical() {
    let app = app_with_two_modifiers();
    let mut task = AppFuture::new();
    let _: Act = task.process_recognize(&app, "/in/x", Method::Get);
    let _: Act = task.poll(Ev::Failed(Failure::BadRequest));
    let a: Act = task.poll(Ev::Unrecovered("broken"));
    assert!(matches!(a, Action::Abort(Critical::ErrorHandler("broken"))));
    assert_eq!(task.state(), AppFutureState::Done);
}

#[test]
fn polling_a_finished_task_is_critical() {
    let app = app_with_two_modifiers();
    let mut task = AppFuture::new();
    let a: Act = task.poll(Ev::Passed);
    assert!(matches!(a, Action::Abort(Critical::Protocol)));
    assert_eq!(task.state(), AppFutureState::Done);
    let a: Act = task.poll(Ev::NotReady);
    assert!(matches!(a, Action::Abort(Critical::Protocol)));
    let a: Act = task.process_recognize(&app, "/in/x", Method::Get);
    assert!(matches!(a, Action::Abort(Critical::Protocol)));
}

#[test]
fn event_out_of_place_is_critical() {
    let app = app_with_two_modifiers();
    let mut task = AppFuture::new();
    let _: Act = task.process_recognize(&app, "/in/x", Method::Get);
    let a: Act = task.poll(Ev::Output("too early"));
    assert!(matches!(a, Action::Abort(Critical::Protocol)));
    assert_eq!(task.state(), AppFutureState::Done);
}

#[test]
fn waiting_stage_stays_where_it_is() {
    let app = app_with_two_modifiers();
    let mut task = AppFuture::new();
    let _: Act = task.process_recognize(&app, "/in/x", Method::Get);
    let _: Act = task.poll(Ev::Passed);
    let before = task.state();
    let a: Act = task.poll(Ev::NotReady);
    assert!(matches!(a, Action::Suspend));
    assert_eq!(task.state(), before);
    let a: Act = task.poll(Ev::Passed);
    assert!(matches!(a, Action::Handle(Target::Endpoint(0))));
}

#[test]
fn task_without_modifiers_starts_with_the_handler() {
    let mut app: App = AppInner::new(Config { fallback_head: true, fallback_options: false });
    app.register(ScopeId::root(), &pattern("/users/:id"), None, "h").unwrap();
    let mut task = AppFuture::new();
    let a: Act = task.process_recognize(&app, "/users/42", Method::Post);
    assert!(matches!(a, Action::Handle(Target::Endpoint(0))));
    assert_eq!(task.captures().unwrap().params, vec![(7, 9)]);
    assert!(task.chain().is_empty());
    let a: Act = task.poll(Ev::Output("done"));
    assert!(matches!(a, Action::Reply("done")));
}

#[test]
fn fallbacks_run_under_the_modifiers_of_their_scope() {
    let app = app_with_two_modifiers();
    let mut task = AppFuture::new();
    let a: Act = task.process_recognize(&app, "/in/x", Method::Delete);
    assert_eq!(modifier_of(&app, &a), "Outer");
    let a: Act = task.poll(Ev::Passed);
    assert_eq!(modifier_of(&app, &a), "Inner");
    let a: Act = task.poll(Ev::Passed);
    match a {
        Action::Handle(Target::Fallback(Fallback::MethodNotAllowed { allow })) => {
            assert_eq!(allow.render(), "GET, HEAD");
        }
        _ => panic!("the method should be refused"),
    }
    assert_eq!(task.endpoint_id(), None);
    assert!(task.captures().is_none());
    assert!(matches!(task.target(), Target::Fallback(_)));
}

#[test]
fn test_case1_empty_routes() {
    let app: App = AppInner::new(Config { fallback_head: true, fallback_options: false });
    let mut task = AppFuture::new();
    let a: Act = task.process_recognize(&app, "/", Method::Get);
    assert!(matches!(a, Action::Handle(Target::NotFound)));
    let a: Act = task.poll(Ev::Failed(Failure::NotFound));
    match a {
        Action::HandleError(e) => assert_eq!(e.status(), 404),
        _ => panic!("the failure should go to the error handler"),
    }
}

#[test]
fn failures_have_their_status() {
    assert_eq!(Failure::BadRequest.status(), 400);
    assert_eq!(Failure::NotFound.status(), 404);
    assert_eq!(Failure::MethodNotAllowed.status(), 405);
    assert_eq!(Failure::InternalServerError.status(), 500);
}

#[test]
fn new_task_has_no_target() {
    let task = AppFuture::new();
    assert_eq!(task.state(), AppFutureState::Init);
    assert!(matches!(task.target(), Target::NotFound));
    assert_eq!(task.endpoint_id(), None);
    assert!(task.captures().is_none());
    assert!(task.chain().is_empty());
}
