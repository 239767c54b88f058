use tsukuyomi::app::{AppInner, AssemblyError, Config, Dispatch, Fallback, ModifierRef, Recognize};
use tsukuyomi::method::{AllowedMethods, Method};
use tsukuyomi::scope::{ScopeId, Scopes};
use tsukuyomi::uri::{PatternError, Uri};

type App = AppInner<&'static str, &'static str, &'static str>;

fn new_app(fallback_head: bool, fallback_options: bool) -> App {
    AppInner::new(Config { fallback_head, fallback_options })
}

fn pattern(s: &str) -> Uri {
    Uri::parse(s).unwrap()
}

fn only(m: Method) -> Option<AllowedMethods> {
    Some(AllowedMethods::single(m))
}

const T: u64 = 7;

#[test]
fn scope_shadowing() {
    let mut app = new_app(true, false);
    let root = ScopeId::root();
    app.set_state(root, T, "G");
    let a = app.mount(root, &pattern("/a")).unwrap();
    app.set_state(a, T, "A");
    let b = app.mount(a, &pattern("/b")).unwrap();

    assert_eq!(app.get_state(T, b), Some(&"A"));
    assert_eq!(app.get_state(T, a), Some(&"A"));
    assert_eq!(app.get_state(T, root), Some(&"G"));
    assert_eq!(app.get_state(T + 1, b), None);
}

#[test]
fn state_set_twice_keeps_the_last_value() {
    let mut app = new_app(true, false);
    app.set_state(ScopeId::root(), T, "first");
    app.set_state(ScopeId::root(), T, "second");
    assert_eq!(app.get_state(T, ScopeId::root()), Some(&"second"));
}

#[test]
fn scopes_know_their_ancestors() {
    let mut scopes: Scopes<&str> = Scopes::new("root");
    let a = scopes.add(ScopeId::root(), "a");
    let b = scopes.add(a, "b");
    let c = scopes.add(ScopeId::root(), "c");
    assert_eq!((a, b, c), (ScopeId(1), ScopeId(2), ScopeId(3)));
    assert_eq!(scopes.len(), 4);
    assert_eq!(scopes.get(b).parent(), Some(a));
    assert_eq!(scopes.get(ScopeId::root()).parent(), None);
    assert_eq!(scopes.get(b).ancestors(), &vec![ScopeId(0), ScopeId(1)]);
    assert_eq!(scopes.chain(b), vec![ScopeId(0), ScopeId(1), ScopeId(2)]);
    assert_eq!(scopes.chain(c), vec![ScopeId(0), ScopeId(3)]);
    assert_eq!(scopes.get(c).id(), c);
    assert_eq!(scopes.get(c).data, "c");
    scopes.set_data(c, "d");
    assert_eq!(scopes.get(c).data, "d");
}

#[test]
fn fallback_inference() {
    let mut app = new_app(true, false);
    let a = app.mount(ScopeId::root(), &pattern("/a")).unwrap();
    assert_eq!(app.register(a, &pattern("/foo"), only(Method::Get), "foo"), Ok(0));
    assert_eq!(app.register(a, &pattern("/bar"), only(Method::Get), "bar"), Ok(1));

    let candidates = match app.recognize("/a/baz", Method::Get) {
        Recognize::PartiallyMatched { candidates } => candidates.clone(),
        _ => panic!("the path should match in part"),
    };
    assert_eq!(candidates, vec![0, 1]);
    assert_eq!(app.infer_scope("/a/baz", &candidates), a);

    // Without a default handler nothing serves the request.
    assert!(matches!(app.route_request("/a/baz", Method::Get), Dispatch::NotFound { scope } if scope == a));

    // The default handler of the scope runs, not a global one.
    app.set_default_handler(a, "default of a");
    match app.route_request("/a/baz", Method::Get) {
        Dispatch::RunFallback { scope, fallback: Fallback::Default { owner } } => {
            assert_eq!(scope, a);
            assert_eq!(owner, a);
        }
        other => panic!("unexpected decision: {:?}", other),
    }
    assert_eq!(app.find_default_handler(a), Some(&"default of a"));
    assert_eq!(app.find_default_handler(ScopeId::root()), None);
}

#[test]
fn infer_scope_takes_the_shared_ancestors() {
    let mut app = new_app(true, false);
    let a = app.mount(ScopeId::root(), &pattern("/a")).unwrap();
    let b = app.mount(a, &pattern("/b")).unwrap();
    let c = app.mount(a, &pattern("/c")).unwrap();
    assert_eq!(app.register(b, &pattern("/x"), None, "bx"), Ok(0));
    assert_eq!(app.register(c, &pattern("/x"), None, "cx"), Ok(1));
    assert_eq!(app.register(b, &pattern("/y"), None, "by"), Ok(2));

    assert_eq!(app.infer_scope("/a/b/z", &vec![0, 2]), b);
    assert_eq!(app.infer_scope("/a/z", &vec![0, 1, 2]), a);
    assert_eq!(app.infer_scope("/a/z", &vec![]), ScopeId::root());
    // Identifiers of no route are passed over.
    assert_eq!(app.infer_scope("/a/b/z", &vec![9, 0]), b);
    assert_eq!(app.infer_scope("/a/b/z", &vec![9]), ScopeId::root());
    // The innermost scope whose prefix starts the path is taken.
    assert_eq!(app.infer_scope("/a/q", &vec![0]), a);
    assert_eq!(app.infer_scope("/q", &vec![0]), ScopeId::root());
    // No prefix starts the path: the innermost shared scope.
    assert_eq!(app.infer_scope("q", &vec![0]), b);
}

#[test]
fn default_handler_of_the_nearest_scope_is_found() {
    let mut app = new_app(true, false);
    let a = app.mount(ScopeId::root(), &pattern("/a")).unwrap();
    let b = app.mount(a, &pattern("/b")).unwrap();
    app.set_default_handler(ScopeId::root(), "global");
    assert_eq!(app.find_default_handler(b), Some(&"global"));
    assert_eq!(app.default_owner(b), Some(ScopeId::root()));
    app.set_default_handler(a, "of a");
    assert_eq!(app.find_default_handler(b), Some(&"of a"));
    assert_eq!(app.find_default_handler(a), Some(&"of a"));
    assert_eq!(app.find_default_handler(ScopeId::root()), Some(&"global"));
    assert!(matches!(
        app.route_request("/nowhere", Method::Get),
        Dispatch::RunFallback { scope: ScopeId(0), fallback: Fallback::Default { owner: ScopeId(0) } }
    ));
}

#[test]
fn implicit_options() {
    let mut app = new_app(true, true);
    let root = ScopeId::root();
    assert_eq!(app.register(root, &pattern("/x"), only(Method::Get), "get x"), Ok(0));

    match app.route_request("/x", Method::Options) {
        Dispatch::RunFallback { fallback, .. } => {
            match fallback {
                Fallback::Options { allow } => assert_eq!(allow.render(), "GET, HEAD"),
                other => panic!("unexpected fallback: {:?}", other),
            }
            let reply = tsukuyomi::lifecycle::handle_fallback(&fallback).unwrap();
            assert_eq!(reply.status, 200);
            assert_eq!(reply.allow.unwrap().render(), "GET, HEAD");
        }
        other => panic!("unexpected decision: {:?}", other),
    }
}

#[test]
fn implicit_options_without_head_fallback() {
    let mut app = new_app(false, true);
    assert_eq!(app.register(ScopeId::root(), &pattern("/x"), only(Method::Get), "get x"), Ok(0));
    match app.route_request("/x", Method::Options) {
        Dispatch::RunFallback { fallback: Fallback::Options { allow }, .. } => {
            assert_eq!(allow.render(), "GET");
        }
        other => panic!("unexpected decision: {:?}", other),
    }
}

#[test]
fn explicit_options_route_is_matched() {
    let mut app = new_app(true, true);
    assert_eq!(app.register(ScopeId::root(), &pattern("/x"), only(Method::Get), "get"), Ok(0));
    assert_eq!(app.register(ScopeId::root(), &pattern("/x"), only(Method::Options), "opt"), Ok(1));
    assert!(matches!(
        app.route_request("/x", Method::Options),
        Dispatch::RunHandler { endpoint: 1, .. }
    ));
}

#[test]
fn dispatch_by_method() {
    let mut app = new_app(false, false);
    let root = ScopeId::root();
    let both = Some(AllowedMethods::single(Method::Get).with(Method::Post));
    assert_eq!(app.register(root, &pattern("/r/:id"), both, "rw"), Ok(0));
    assert_eq!(app.register(root, &pattern("/r/:id"), only(Method::Delete), "rm"), Ok(1));

    for (method, endpoint) in [(Method::Get, 0), (Method::Post, 0), (Method::Delete, 1)] {
        match app.route_request("/r/5", method) {
            Dispatch::RunHandler { endpoint: e, captures } => {
                assert_eq!(e, endpoint);
                assert_eq!(captures.params, vec![(3, 4)]);
            }
            other => panic!("unexpected decision: {:?}", other),
        }
    }
    for method in [Method::Put, Method::Head, Method::Patch, Method::Extension] {
        match app.route_request("/r/5", method) {
            Dispatch::RunFallback { scope, fallback: Fallback::MethodNotAllowed { allow } } => {
                assert_eq!(scope, root);
                assert_eq!(allow.render(), "GET, POST, DELETE");
                let reply = tsukuyomi::lifecycle::handle_fallback(&Fallback::MethodNotAllowed { allow });
                assert_eq!(reply.unwrap().status, 405);
            }
            other => panic!("unexpected decision: {:?}", other),
        }
    }
}

#[test]
fn route_for_every_method_serves_extensions() {
    let mut app = new_app(true, false);
    assert_eq!(app.register(ScopeId::root(), &pattern("/any"), None, "any"), Ok(0));
    for method in [Method::Get, Method::Trace, Method::Extension] {
        assert!(matches!(app.route_request("/any", method), Dispatch::RunHandler { endpoint: 0, .. }));
    }
}

#[test]
fn duplicate_routes_are_refused() {
    let mut app = new_app(true, false);
    let root = ScopeId::root();
    assert_eq!(app.register(root, &pattern("/x"), only(Method::Get), "a"), Ok(0));
    assert_eq!(
        app.register(root, &pattern("/x"), only(Method::Get), "b"),
        Err(AssemblyError::DuplicateRoute)
    );
    assert_eq!(app.register(root, &pattern("/x"), None, "c"), Err(AssemblyError::DuplicateRoute));
    assert_eq!(app.register(root, &pattern("/x"), only(Method::Post), "d"), Ok(1));
    // Patterns that differ in the names of their captures alone collide too.
    assert_eq!(app.register(root, &pattern("/u/:a"), only(Method::Get), "e"), Ok(2));
    assert_eq!(
        app.register(root, &pattern("/u/:b"), only(Method::Get), "f"),
        Err(AssemblyError::DuplicateRoute)
    );
    assert_eq!(app.num_endpoints(), 3);
}

#[test]
fn malformed_patterns_are_refused() {
    let mut app = new_app(true, false);
    let users = app.mount(ScopeId::root(), &pattern("/users/:id")).unwrap();
    assert_eq!(
        app.register(users, &pattern("/posts/:id"), None, "h"),
        Err(AssemblyError::Pattern(PatternError::DuplicateName))
    );
    let files = app.mount(ScopeId::root(), &pattern("/files/*path")).unwrap();
    assert_eq!(
        app.register(files, &pattern("/x"), None, "h"),
        Err(AssemblyError::Pattern(PatternError::WildcardNotLast))
    );
    assert_eq!(
        app.mount(files, &pattern("/x")),
        Err(AssemblyError::Pattern(PatternError::WildcardNotLast))
    );
    assert_eq!(app.num_endpoints(), 0);
    assert_eq!(app.num_scopes(), 3);
}

#[test]
fn unreachable_wildcard_is_refused() {
    let mut app = new_app(true, false);
    let root = ScopeId::root();
    assert_eq!(app.register(root, &pattern("/a/"), None, "slash"), Ok(0));
    assert_eq!(app.register(root, &pattern("/a/:x"), None, "capture"), Ok(1));
    assert_eq!(
        app.register(root, &pattern("/a/*rest"), None, "wildcard"),
        Err(AssemblyError::UnreachableWildcard)
    );
    assert_eq!(app.register(root, &pattern("/b/*rest"), None, "wildcard"), Ok(2));
}

#[test]
fn endpoints_know_their_scopes() {
    let mut app = new_app(true, false);
    let a = app.mount(ScopeId::root(), &pattern("/a")).unwrap();
    let b = app.mount(a, &pattern("/:b")).unwrap();
    assert_eq!(app.register(b, &pattern("/c"), only(Method::Get), "h"), Ok(0));
    let e = app.endpoint(0);
    assert_eq!(e.id, 0);
    assert_eq!(e.scope, b);
    assert_eq!(e.ancestors, vec![ScopeId::root(), a, b]);
    assert_eq!(String::from_utf8(e.uri.render()).unwrap(), "/a/:b/c");
    assert_eq!(e.handler, "h");
    assert_eq!(app.ancestors(b), &vec![ScopeId::root(), a]);
    assert_eq!(String::from_utf8(app.scope(b).prefix.render()).unwrap(), "/a/:b");
}

#[test]
fn modifier_chain_runs_from_the_root_down() {
    let mut app = new_app(true, false);
    let root = ScopeId::root();
    let g1 = app.add_modifier(root, "g1");
    let a = app.mount(root, &pattern("/a")).unwrap();
    let b = app.mount(a, &pattern("/b")).unwrap();
    let b1 = app.add_modifier(b, "b1");
    let g2 = app.add_modifier(root, "g2");
    let b2 = app.add_modifier(b, "b2");
    assert_eq!(app.modifier_chain(b), vec![g1, g2, b1, b2]);
    assert_eq!(app.modifier_chain(a), vec![g1, g2]);
    assert_eq!(b2, ModifierRef { scope: b, index: 1 });
    assert_eq!(app.modifier(b2), &"b2");
    assert_eq!(app.modifier(g1), &"g1");
}

#[test]
fn find_endpoint_places_unmatched_requests() {
    let mut app = new_app(true, false);
    let a = app.mount(ScopeId::root(), &pattern("/a")).unwrap();
    assert_eq!(app.register(a, &pattern("/foo"), None, "foo"), Ok(0));
    match app.find_endpoint("/a/foo") {
        Ok((ids, captures)) => {
            assert_eq!(ids, &vec![0]);
            assert!(captures.params.is_empty());
        }
        Err(scope) => panic!("unexpected scope: {:?}", scope),
    }
    assert_eq!(app.find_endpoint("/a/bar").unwrap_err(), a);
    assert_eq!(app.find_endpoint("/b").unwrap_err(), ScopeId::root());
}

#[test]
fn method_sets_behave_as_sets() {
    let get = AllowedMethods::single(Method::Get);
    let post = AllowedMethods::single(Method::Post);
    assert!(AllowedMethods::empty().is_empty());
    assert!(!get.is_empty());
    assert!(get.contains(Method::Get));
    assert!(!get.contains(Method::Post));
    assert!(!get.intersects(&post));
    assert!(get.union(post).intersects(&post));
    assert_eq!(get.union(post), post.union(get));
    assert_eq!(get.with(Method::Extension), get);
    assert!(AllowedMethods::single(Method::Extension).is_empty());
    assert_eq!(AllowedMethods::empty().render(), "");
    let mut all = AllowedMethods::empty();
    for i in 0..9 {
        all = all.with(Method::nth(i));
    }
    assert_eq!(all.render(), "GET, HEAD, POST, PUT, DELETE, CONNECT, OPTIONS, TRACE, PATCH");
    assert_eq!(Method::Patch.as_str(), "PATCH");
    assert_eq!(Method::Extension.as_str(), "");
}
