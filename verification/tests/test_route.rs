use tsukuyomi::app::{AppInner, AssemblyError, Config, Dispatch};
use tsukuyomi::builder::{app, fallback, modifier, state, AppBuilder, Directive};
use tsukuyomi::codegen::{HandlerBody, HandlerError, HandlerMode, HandlerPlan};
use tsukuyomi::fs::{ArcPath, OpenConfig, OpenFutureInner};
use tsukuyomi::input::{slice, Params, States};
use tsukuyomi::lifecycle::AppFutureState;
use tsukuyomi::method::{AllowedMethods, Method};
use tsukuyomi::modifier::{AfterHandle, BeforeHandle, HandleState, Identity, Modifier, PollReady};
use tsukuyomi::query::{optional, optional_from, query, query_from, raw, ExtractQueryError};
use tsukuyomi::recognizer::Captures;
use tsukuyomi::route::{
    asterisk, methods_from, root, route, CatchAllExtractor, HandleEvent, HandleStage, HandleStep,
    InvalidMethod, ParamError, ParamExtractor, Route,
};
use tsukuyomi::scope::ScopeId;
use tsukuyomi::uri::{PatternError, Uri};

fn text(uri: &Uri) -> String {
    String::from_utf8(uri.render()).unwrap()
}

#[test]
fn builder_grows_the_pattern() {
    let b = root().segment("users").unwrap().param("id").unwrap().segment("posts").unwrap();
    assert_eq!(text(b.uri()), "/users/:id/posts");
    let b = b.slash();
    assert_eq!(text(b.uri()), "/users/:id/posts/");
    let b = root().segment("static").unwrap().catch_all("rest").unwrap();
    assert_eq!(text(b.uri()), "/static/*rest");
    assert_eq!(text(root().uri()), "/");
    assert_eq!(text(route().uri()), "/");
    assert_eq!(text(root().slash().uri()), "/");
    assert_eq!(text(asterisk().uri()), "*");
}

#[test]
fn builder_reports_pattern_errors() {
    assert_eq!(root().segment("").err(), Some(PatternError::EmptySegment));
    assert_eq!(root().segment("a/b").err(), Some(PatternError::InvalidCharacter));
    assert_eq!(root().param("").err(), Some(PatternError::EmptyName));
    assert_eq!(root().param("id").unwrap().param("id").err(), Some(PatternError::DuplicateName));
    assert_eq!(root().param("id").unwrap().catch_all("id").err(), Some(PatternError::DuplicateName));
}

#[test]
fn builder_sets_the_methods() {
    let r = root().segment("a").unwrap().allowed_methods(&[Method::Get, Method::Post]).unwrap().say("hi");
    assert_eq!(r.methods().unwrap().render(), "GET, POST");
    assert_eq!(root().allowed_methods(&[Method::Get, Method::Extension]).err(), Some(InvalidMethod));
    assert_eq!(root().say("hi").methods(), None);
    assert_eq!(asterisk().say("hi").methods(), Some(AllowedMethods::single(Method::Options)));
    assert_eq!(methods_from(&[]), Ok(AllowedMethods::empty()));
    assert_eq!(methods_from(&[Method::Put, Method::Put]), Ok(AllowedMethods::single(Method::Put)));
}

#[test]
fn builder_finishes_routes() {
    let r = root().segment("a").unwrap().extract("ex").to("endpoint");
    assert_eq!(text(r.uri()), "/a");
    assert_eq!(r.handler().endpoint, "endpoint");
    assert_eq!(r.handler().extractor.right, "ex");
    assert_eq!(r.handler().allowed_methods, None);
    assert_eq!(root().reply("f").handler().endpoint.f, "f");
    assert_eq!(root().call("g").handler().endpoint.f, "g");
    assert_eq!(root().say("out").handler().endpoint.f.output, "out");
    let r = root().param("id").unwrap().to(());
    assert_eq!(r.handler().extractor.right.name, "id");
}

#[test]
fn route_new_parses_the_pattern() {
    let r = Route::new("/a/:b", "h").ok().unwrap();
    assert_eq!(text(r.uri()), "/a/:b");
    assert_eq!(r.methods(), None);
    assert_eq!(r.handler(), &"h");
    assert_eq!(Route::new("a", "h").err(), Some(PatternError::MissingLeadingSlash));
}

#[test]
fn routes_are_registered_in_their_scope() {
    let mut app: AppInner<&str, (), ()> = AppInner::new(Config { fallback_head: true, fallback_options: false });
    let api = app.mount(ScopeId::root(), &Uri::parse("/api").unwrap()).unwrap();
    assert_eq!(Route::new("/v1", "h").ok().unwrap().configure(&mut app, api), Ok(0));
    assert_eq!(
        Route::new("/v1", "again").ok().unwrap().configure(&mut app, api),
        Err(AssemblyError::DuplicateRoute)
    );
    assert_eq!(text(&app.endpoint(0).uri), "/api/v1");
    assert_eq!(app.endpoint(0).handler, "h");
}

#[test]
fn route_handler_checks_the_method_first() {
    let r = root().allowed_methods(&[Method::Get]).unwrap().to(());
    let first: (HandleStage, HandleStep<u8, u8, u8>) = r.handler().start(Method::Post);
    assert!(matches!(first, (HandleStage::Finished, HandleStep::Reject)));
    let first: (HandleStage, HandleStep<u8, u8, u8>) = r.handler().start(Method::Get);
    assert!(matches!(first, (HandleStage::First, HandleStep::Extract)));
    let any = root().to(());
    let first: (HandleStage, HandleStep<u8, u8, u8>) = any.handler().start(Method::Extension);
    assert!(matches!(first, (HandleStage::First, HandleStep::Extract)));
}

#[test]
fn route_handler_extracts_then_calls() {
    type Ev = HandleEvent<&'static str, u8, u16>;
    assert!(matches!(HandleStage::First.advance(Ev::NotReady), (HandleStage::First, HandleStep::Wait)));
    assert!(matches!(
        HandleStage::First.advance(Ev::Extracted("args")),
        (HandleStage::Second, HandleStep::Call("args"))
    ));
    assert!(matches!(HandleStage::Second.advance(Ev::NotReady), (HandleStage::Second, HandleStep::Wait)));
    assert!(matches!(
        HandleStage::Second.advance(Ev::Called(7)),
        (HandleStage::Finished, HandleStep::Return(7))
    ));
    assert!(matches!(
        HandleStage::First.advance(Ev::Failed(500)),
        (HandleStage::Finished, HandleStep::Fail(500))
    ));
    assert!(matches!(
        HandleStage::Second.advance(Ev::Failed(400)),
        (HandleStage::Finished, HandleStep::Fail(400))
    ));
    assert!(matches!(
        HandleStage::First.advance(Ev::Called(7)),
        (HandleStage::Finished, HandleStep::Fault)
    ));
    assert!(matches!(
        HandleStage::Finished.advance(Ev::NotReady),
        (HandleStage::Finished, HandleStep::Fault)
    ));
}

#[test]
fn params_give_the_bound_values() {
    let uri = Uri::parse("/users/:id/files/*path").unwrap();
    let path = "/users/42/files/a/b.txt";
    let captures = Captures { params: vec![(7, 9)], wildcard: Some((16, 23)) };
    let params = Params::new(path, &uri, &captures);
    assert!(!params.is_empty());
    assert_eq!(params.get(0), Some("42"));
    assert_eq!(params.get(1), None);
    assert_eq!(params.get_wildcard(), Some("a/b.txt"));
    assert_eq!(params.name("id"), Some("42"));
    assert_eq!(params.name("*"), Some("a/b.txt"));
    assert_eq!(params.name("path"), None);
    assert_eq!(params.name("nope"), None);

    let none = Captures { params: vec![], wildcard: None };
    let params = Params::new(path, &uri, &none);
    assert!(params.is_empty());
    assert_eq!(params.get(0), None);
    assert_eq!(params.get_wildcard(), None);
    assert_eq!(params.name("id"), None);
}

#[test]
fn params_refuse_ranges_that_cut_characters() {
    let uri = Uri::parse("/:a").unwrap();
    let path = "/caf\u{e9}";
    let whole = Captures { params: vec![(1, 6)], wildcard: None };
    assert_eq!(Params::new(path, &uri, &whole).get(0), Some("caf\u{e9}"));
    for range in [(1, 5), (5, 6), (3, 2), (1, 7)] {
        let cut = Captures { params: vec![range], wildcard: Some(range) };
        assert_eq!(Params::new(path, &uri, &cut).get(0), None);
        assert_eq!(Params::new(path, &uri, &cut).get_wildcard(), None);
    }
    assert_eq!(slice("abc", 1, 1), Some(""));
    assert_eq!(slice("abc", 0, 3), Some("abc"));
    assert_eq!(slice("abc", 2, 4), None);
}

#[test]
fn extractors_read_the_params() {
    let uri = Uri::parse("/:id/*rest").unwrap();
    let captures = Captures { params: vec![(1, 2)], wildcard: Some((3, 6)) };
    let params = Some(Params::new("/7/a/b", &uri, &captures));
    let id = ParamExtractor { name: String::from("id") };
    assert_eq!(id.extract(&params), Ok("7"));
    assert_eq!(id.extract(&None), Err(ParamError::MissingParams));
    let other = ParamExtractor { name: String::from("other") };
    assert_eq!(other.extract(&params), Err(ParamError::InvalidName));
    assert_eq!(CatchAllExtractor.extract(&params), Ok("a/b"));
    assert_eq!(CatchAllExtractor.extract(&None), Err(ParamError::MissingParams));
    let no_wildcard = Captures { params: vec![(1, 2)], wildcard: None };
    let params = Some(Params::new("/7/a/b", &uri, &no_wildcard));
    assert_eq!(CatchAllExtractor.extract(&params), Err(ParamError::CatchAllNotAvailable));
}

#[test]
fn states_show_the_state_of_the_scope() {
    let mut app: AppInner<(), (), &str> = AppInner::new(Config { fallback_head: true, fallback_options: false });
    app.set_state(ScopeId::root(), 1, "global");
    let a = app.mount(ScopeId::root(), &Uri::parse("/a").unwrap()).unwrap();
    let states = States::new(&app, Some(a));
    assert_eq!(states.try_get(1), Some(&"global"));
    assert_eq!(states.get(1), &"global");
    assert_eq!(states.try_get(2), None);
    let nowhere = States::new(&app, None);
    assert_eq!(nowhere.try_get(1), None);
}

#[test]
fn app_builder_reports_the_first_failure() {
    let mut b: AppBuilder<&str, &str, &str> = app();
    let api = b.mount(ScopeId::root(), "/api");
    assert_eq!(api, ScopeId(1));
    b.with(api, state(1, "s"));
    b.with(api, modifier("m"));
    b.with(api, fallback("f"));
    b.route(api, Route::new("/x", "h").ok().unwrap());
    assert_eq!(b.num_scopes(), 2);
    let built = b.finish().ok().unwrap();
    let inner = built.inner();
    assert_eq!(inner.num_endpoints(), 1);
    assert_eq!(inner.get_state(1, api), Some(&"s"));
    assert_eq!(inner.scope(api).modifiers, vec!["m"]);
    assert_eq!(inner.find_default_handler(api), Some(&"f"));
    assert!(matches!(inner.route_request("/api/x", Method::Head), Dispatch::RunHandler { endpoint: 0, .. }));
    assert!(matches!(inner.route_request("/api/y", Method::Get), Dispatch::RunFallback { .. }));

    let mut b: AppBuilder<&str, &str, &str> = app();
    b.route(ScopeId::root(), Route::new("/x", "h").ok().unwrap());
    b.route(ScopeId::root(), Route::new("/x", "again").ok().unwrap());
    let bad = b.mount(ScopeId::root(), "no slash");
    assert_eq!(bad, ScopeId::root());
    b.route(ScopeId::root(), Route::new("/y", "skipped").ok().unwrap());
    assert_eq!(b.finish().err(), Some(AssemblyError::DuplicateRoute));

    let mut b: AppBuilder<&str, &str, &str> = app();
    assert_eq!(b.mount(ScopeId::root(), "/a//b"), ScopeId::root());
    assert_eq!(b.finish().err(), Some(AssemblyError::Pattern(PatternError::EmptySegment)));
    assert!(matches!(state::<(), (), u8>(1, 2), Directive::State(1, 2)));
}

#[test]
fn services_share_the_application() {
    let mut b: AppBuilder<&str, (), ()> = app();
    b.route(ScopeId::root(), Route::new("/x", "h").ok().unwrap());
    let app = b.finish().ok().unwrap();
    let service = app.make_service();
    assert!(service.poll_ready());
    assert_eq!(service.inner().num_endpoints(), 1);
    assert_eq!(service.call().state(), AppFutureState::Init);
    let with = app.with_modify_service("modify");
    let (service, modify) = with.make_service();
    assert_eq!(modify, &"modify");
    assert_eq!(service.inner().endpoint(0).handler, "h");
}

#[test]
fn hooks_are_polled_once() {
    let mut before: BeforeHandle<u8, ()> = BeforeHandle::ok();
    assert!(matches!(before.poll_ready(), PollReady::Ready(Ok(()))));
    assert!(matches!(before.0, HandleState::Ready(None)));
    let mut before: BeforeHandle<u8, ()> = BeforeHandle::err(3);
    assert!(matches!(before.poll_ready(), PollReady::Ready(Err(3))));
    let mut before: BeforeHandle<u8, &str> = BeforeHandle::wrap_future("later");
    assert!(matches!(before.poll_ready(), PollReady::Pending));
    assert!(matches!(before.0, HandleState::Async("later")));

    let mut after: AfterHandle<&str, u8, ()> = AfterHandle::ok("out");
    assert!(matches!(after.poll_ready(), PollReady::Ready(Ok("out"))));
    let mut after: AfterHandle<&str, u8, ()> = AfterHandle::err(4);
    assert!(matches!(after.poll_ready(), PollReady::Ready(Err(4))));
    let mut after: AfterHandle<&str, u8, &str> = AfterHandle::wrap_future("later");
    assert!(matches!(after.poll_ready(), PollReady::Pending));
}

#[test]
fn identity_modifier_does_nothing() {
    let mut input = 1u8;
    let mut before: BeforeHandle<u8, ()> = Modifier::<u8, &str, u8, (), ()>::before_handle(&Identity, &mut input);
    assert!(matches!(before.poll_ready(), PollReady::Ready(Ok(()))));
    let mut after: AfterHandle<&str, u8, ()> = Modifier::<u8, &str, u8, (), ()>::after_handle(&Identity, &mut input, "out");
    assert!(matches!(after.poll_ready(), PollReady::Ready(Ok("out"))));
    assert_eq!(input, 1);
}

#[test]
fn query_is_parsed_into_pairs() {
    let pairs = query(Some("bread=baguette&cheese=comt%C3%A9&x=a+b")).unwrap();
    assert_eq!(
        pairs,
        vec![
            (String::from("bread"), String::from("baguette")),
            (String::from("cheese"), String::from("comt\u{e9}")),
            (String::from("x"), String::from("a b")),
        ]
    );
    assert_eq!(query(None), Err(ExtractQueryError::MissingQuery));
    assert_eq!(query(Some("")), Ok(vec![]));
    assert_eq!(optional(None), Ok(None));
    assert_eq!(optional(Some("a=1")), Ok(Some(vec![(String::from("a"), String::from("1"))])));
    assert_eq!(raw(Some("a=1&b")), Some(String::from("a=1&b")));
    assert_eq!(raw(None), None);
}

#[test]
fn query_outcomes_follow_the_parse() {
    assert_eq!(query_from::<u8>(None), Err(ExtractQueryError::MissingQuery));
    assert_eq!(query_from::<u8>(Some(None)), Err(ExtractQueryError::InvalidQuery));
    assert_eq!(query_from(Some(Some(5u8))), Ok(5));
    assert_eq!(optional_from::<u8>(None), Ok(None));
    assert_eq!(optional_from::<u8>(Some(None)), Err(ExtractQueryError::InvalidQuery));
    assert_eq!(optional_from(Some(Some(5u8))), Ok(Some(5)));
}

#[test]
fn handler_mode_is_read_from_the_attribute() {
    assert_eq!(HandlerMode::from_str(""), Some(HandlerMode::Ready));
    assert_eq!(HandlerMode::from_str("  \t"), Some(HandlerMode::Ready));
    assert_eq!(HandlerMode::from_str("ready"), Some(HandlerMode::Ready));
    assert_eq!(HandlerMode::from_str(" async\n"), Some(HandlerMode::Async));
    assert_eq!(HandlerMode::from_str("await"), Some(HandlerMode::AsyncAwait));
    assert_eq!(HandlerMode::from_str("Async"), None);
    assert_eq!(HandlerMode::from_str("a sync"), None);
    assert_eq!(HandlerMode::from_str("awaits"), None);
}

#[test]
fn handler_arguments_are_validated() {
    assert_eq!(HandlerMode::Ready.validate(0), Ok(()));
    assert_eq!(HandlerMode::Ready.validate(1), Ok(()));
    assert_eq!(HandlerMode::Async.validate(1), Ok(()));
    assert_eq!(HandlerMode::Ready.validate(2), Err(HandlerError::TooManyArguments));
    assert_eq!(HandlerMode::AsyncAwait.validate(2), Err(HandlerError::TooManyArguments));
    assert_eq!(HandlerMode::AsyncAwait.validate(1), Err(HandlerError::ArgumentsInAwait));
    assert_eq!(HandlerMode::AsyncAwait.validate(0), Ok(()));
    assert_eq!(HandlerError::TooManyArguments.message(), "Too many arguments");
    assert_eq!(
        HandlerError::ArgumentsInAwait.message(),
        "The number of arguments in #[async] handler must be zero."
    );
    assert!(HandlerMode::Ready.uses_input(0));
    assert!(HandlerMode::Ready.uses_input(1));
    assert!(!HandlerMode::Async.uses_input(0));
    assert!(HandlerMode::Async.uses_input(1));
    assert!(!HandlerMode::AsyncAwait.uses_input(0));
}

#[test]
fn handler_plan_follows_the_mode() {
    assert_eq!(
        HandlerMode::Ready.plan(1),
        HandlerPlan { uses_input: true, passes_input: true, body: HandlerBody::Respond, marks_async: false }
    );
    assert_eq!(
        HandlerMode::Ready.plan(0),
        HandlerPlan { uses_input: true, passes_input: false, body: HandlerBody::Respond, marks_async: false }
    );
    assert_eq!(
        HandlerMode::Async.plan(0),
        HandlerPlan { uses_input: false, passes_input: false, body: HandlerBody::AsyncResponder, marks_async: false }
    );
    assert_eq!(
        HandlerMode::AsyncAwait.plan(0),
        HandlerPlan { uses_input: false, passes_input: false, body: HandlerBody::AsyncResponder, marks_async: true }
    );
}

#[test]
fn send_file_opens_the_file() {
    let path = ArcPath::from(std::path::PathBuf::from("/srv/a.txt"));
    let config = OpenConfig { chunk_size: Some(64), max_age: None };
    let r = root().segment("a").unwrap().send_file(path, Some(config));
    assert_eq!(text(r.uri()), "/a");
    let send = &r.handler().endpoint.f;
    match send.open().inner {
        OpenFutureInner::Opening(p, c) => {
            assert_eq!(p.as_ref(), &std::path::PathBuf::from("/srv/a.txt"));
            assert_eq!(c, Some(config));
        }
        _ => panic!("the file should be opened"),
    }
    let path = ArcPath::from(std::path::PathBuf::from("/srv/b.txt"));
    let r = root().send_file(path, None);
    assert!(matches!(r.handler().endpoint.f.open().inner, OpenFutureInner::Opening(_, None)));
}
