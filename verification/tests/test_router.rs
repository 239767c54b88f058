use tsukuyomi::app::{AppInner, AssemblyError, Config, Dispatch, Fallback, Recognize};
use tsukuyomi::method::{AllowedMethods, Method};
use tsukuyomi::scope::ScopeId;
use tsukuyomi::uri::Uri;

type App = AppInner<&'static str, &'static str, String>;

fn builder(fallback_head: bool, fallback_options: bool) -> App {
    AppInner::new(Config { fallback_head, fallback_options })
}

fn get() -> Option<AllowedMethods> {
    Some(AllowedMethods::single(Method::Get))
}

fn post() -> Option<AllowedMethods> {
    Some(AllowedMethods::single(Method::Post))
}

fn uri(s: &str) -> Uri {
    Uri::parse(s).unwrap()
}

fn matched(app: &App, path: &str, method: Method) -> Option<usize> {
    match app.recognize(path, method) {
        Recognize::Matched { endpoint, .. } => Some(endpoint),
        _ => None,
    }
}

fn is_not_found(app: &App, path: &str, method: Method) -> bool {
    matches!(app.route_request(path, method), Dispatch::NotFound { .. })
}

fn is_method_not_allowed(app: &App, path: &str, method: Method) -> bool {
    matches!(
        app.route_request(path, method),
        Dispatch::RunFallback { fallback: Fallback::MethodNotAllowed { .. }, .. }
    )
}

#[test]
fn empty() {
    let app = builder(true, false);
    assert!(matches!(app.recognize("/", Method::Get), Recognize::NotMatched));
    assert!(is_not_found(&app, "/", Method::Get));
}

#[test]
fn root_single_method() {
    let mut app = builder(true, false);
    let m = app.mount(ScopeId::root(), &uri("/")).unwrap();
    assert_eq!(app.register(m, &uri("/"), get(), "a"), Ok(0));

    assert_eq!(matched(&app, "/", Method::Get), Some(0));
    assert!(is_not_found(&app, "/path/to", Method::Get));
    assert!(is_method_not_allowed(&app, "/", Method::Post));
}

#[test]
fn root_multiple_method() {
    let mut app = builder(true, false);
    let m = app.mount(ScopeId::root(), &uri("/")).unwrap();
    assert_eq!(app.register(m, &uri("/"), get(), "a"), Ok(0));
    assert_eq!(app.register(m, &uri("/"), post(), "b"), Ok(1));

    assert_eq!(matched(&app, "/", Method::Get), Some(0));
    assert_eq!(matched(&app, "/", Method::Post), Some(1));
    assert!(is_method_not_allowed(&app, "/", Method::Put));
}

#[test]
fn root_fallback_head() {
    let mut app = builder(true, false);
    let m = app.mount(ScopeId::root(), &uri("/")).unwrap();
    assert_eq!(app.register(m, &uri("/"), get(), "a"), Ok(0));

    assert_eq!(matched(&app, "/", Method::Head), Some(0));
}

#[test]
fn root_fallback_head_disabled() {
    let mut app = builder(false, false);
    let m = app.mount(ScopeId::root(), &uri("/")).unwrap();
    assert_eq!(app.register(m, &uri("/"), get(), "a"), Ok(0));

    assert!(is_method_not_allowed(&app, "/", Method::Head));
}

#[test]
fn fallback_options() {
    let mut app = builder(true, true);
    let m = app.mount(ScopeId::root(), &uri("/path/to")).unwrap();
    assert_eq!(app.register(m, &uri("/foo"), get(), "a"), Ok(0));
    assert_eq!(app.register(m, &uri("/foo"), post(), "b"), Ok(1));

    match app.route_request("/path/to/foo", Method::Options) {
        Dispatch::RunFallback { scope, fallback: Fallback::Options { allow } } => {
            assert_eq!(scope, m);
            assert_eq!(allow.render(), "GET, HEAD, POST");
        }
        other => panic!("unexpected decision: {:?}", other),
    }
}

#[test]
fn fallback_options_disabled() {
    let mut app = builder(true, false);
    let m = app.mount(ScopeId::root(), &uri("/path/to")).unwrap();
    assert_eq!(app.register(m, &uri("/foo"), get(), "a"), Ok(0));
    assert_eq!(app.register(m, &uri("/foo"), post(), "b"), Ok(1));

    assert!(is_method_not_allowed(&app, "/path/to/foo", Method::Options));
}

#[test]
fn mount() {
    let mut app = builder(true, false);
    let root = app.mount(ScopeId::root(), &uri("/")).unwrap();
    assert_eq!(app.register(root, &uri("/foo"), get(), "a"), Ok(0));
    assert_eq!(app.register(root, &uri("/bar"), get(), "b"), Ok(1));
    let baz = app.mount(ScopeId::root(), &uri("/baz")).unwrap();
    assert_eq!(app.register(baz, &uri("/"), get(), "c"), Ok(2));
    let inner = app.mount(baz, &uri("/")).unwrap();
    // A second `GET /baz` collides with the first one.
    assert_eq!(app.register(inner, &uri("/"), get(), "d"), Err(AssemblyError::DuplicateRoute));
    assert_eq!(app.register(inner, &uri("/foobar"), get(), "e"), Ok(3));

    assert_eq!(matched(&app, "/foo", Method::Get), Some(0));
    assert_eq!(matched(&app, "/bar", Method::Get), Some(1));
    assert_eq!(matched(&app, "/baz", Method::Get), Some(2));
    assert_eq!(matched(&app, "/baz/foobar", Method::Get), Some(3));
    assert!(is_not_found(&app, "/baz/", Method::Get));
}

#[test]
fn scope_variable() {
    const KEY: u64 = 1;
    let mut app = builder(true, false);
    app.set_state(ScopeId::root(), KEY, String::from("G"));
    let s0 = app.mount(ScopeId::root(), &uri("/s0")).unwrap();
    let s1 = app.mount(s0, &uri("/s1")).unwrap();
    app.set_state(s1, KEY, String::from("A"));
    let s2 = app.mount(ScopeId::root(), &uri("/s2")).unwrap();
    app.set_state(s2, KEY, String::from("B"));
    let s3 = app.mount(s2, &uri("/s3")).unwrap();
    app.set_state(s3, KEY, String::from("C"));
    let s4 = app.mount(s3, &uri("/s4")).unwrap();
    let s5 = app.mount(s2, &uri("/s5")).unwrap();
    let s6 = app.mount(s5, &uri("/s6")).unwrap();

    let local = |id: ScopeId| -> Option<String> {
        app.scope(id).states.iter().find(|e| e.0 == KEY).map(|e| e.1.clone())
    };
    assert_eq!(local(ScopeId::root()), Some("G".into()));
    assert_eq!(
        vec![local(s0), local(s1), local(s2), local(s3), local(s4), local(s5), local(s6)],
        vec![
            None,
            Some("A".into()),
            Some("B".into()),
            Some("C".into()),
            None,
            None,
            None,
        ]
    );

    assert_eq!(app.get_state(KEY, s0).map(String::as_str), Some("G"));
    assert_eq!(app.get_state(KEY, s1).map(String::as_str), Some("A"));
    assert_eq!(app.get_state(KEY, s2).map(String::as_str), Some("B"));
    assert_eq!(app.get_state(KEY, s3).map(String::as_str), Some("C"));
    assert_eq!(app.get_state(KEY, s4).map(String::as_str), Some("C"));
    assert_eq!(app.get_state(KEY, s5).map(String::as_str), Some("B"));
    assert_eq!(app.get_state(KEY, s6).map(String::as_str), Some("B"));
}
