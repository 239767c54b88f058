use tsukuyomi::uri::{PatternError, Uri, UriComponent};

fn text(uri: &Uri) -> String {
    String::from_utf8(uri.render()).unwrap()
}

fn error(s: &str) -> PatternError {
    Uri::parse(s).unwrap_err()
}

#[test]
fn parse_renders_back() {
    for s in ["/", "*", "/foo", "/foo/", "/foo/bar", "/users/:id", "/static/*rest", "/a/:b/c/*d"] {
        assert_eq!(text(&Uri::parse(s).unwrap()), s);
    }
}

#[test]
fn parse_counts_components() {
    assert_eq!(Uri::parse("/").unwrap().len(), 0);
    assert_eq!(Uri::parse("/foo").unwrap().len(), 1);
    assert_eq!(Uri::parse("/foo/").unwrap().len(), 2);
    assert_eq!(Uri::parse("/users/:id/posts").unwrap().len(), 3);
    assert!(Uri::parse("*").unwrap().is_asterisk());
    assert!(!Uri::parse("/").unwrap().is_asterisk());
}

#[test]
fn parse_classifies_segments() {
    let uri = Uri::parse("/a/:b/*c").unwrap();
    assert!(matches!(uri.component(0), UriComponent::Static(s) if s == b"a"));
    assert!(matches!(uri.component(1), UriComponent::Capture(s) if s == b"b"));
    assert!(matches!(uri.component(2), UriComponent::Wildcard(s) if s == b"c"));
    let uri = Uri::parse("/a/").unwrap();
    assert!(matches!(uri.component(1), UriComponent::Slash));
}

#[test]
fn parse_refuses_missing_slash() {
    assert_eq!(error(""), PatternError::MissingLeadingSlash);
    assert_eq!(error("foo"), PatternError::MissingLeadingSlash);
    assert_eq!(error("**"), PatternError::MissingLeadingSlash);
}

#[test]
fn parse_refuses_empty_segment() {
    assert_eq!(error("//"), PatternError::EmptySegment);
    assert_eq!(error("/a//b"), PatternError::EmptySegment);
}

#[test]
fn parse_refuses_empty_name() {
    assert_eq!(error("/:"), PatternError::EmptyName);
    assert_eq!(error("/a/*"), PatternError::EmptyName);
}

#[test]
fn parse_refuses_reserved_bytes() {
    assert_eq!(error("/a:b"), PatternError::InvalidCharacter);
    assert_eq!(error("/a*"), PatternError::InvalidCharacter);
    assert_eq!(error("/:a:b"), PatternError::InvalidCharacter);
}

#[test]
fn parse_refuses_reused_name() {
    assert_eq!(error("/:id/:id"), PatternError::DuplicateName);
    assert_eq!(error("/:id/x/*id"), PatternError::DuplicateName);
}

#[test]
fn parse_refuses_wildcard_that_is_not_last() {
    assert_eq!(error("/*a/b"), PatternError::WildcardNotLast);
    assert_eq!(error("/*a/*b"), PatternError::WildcardNotLast);
    assert_eq!(error("/*a/"), PatternError::WildcardNotLast);
}

#[test]
fn push_after_trailing_slash_is_refused() {
    let mut uri = Uri::parse("/a/").unwrap();
    assert_eq!(uri.push(UriComponent::Static(b"b".to_vec())), Err(PatternError::TrailingSlash));
    assert_eq!(text(&uri), "/a/");
}

#[test]
fn push_on_asterisk_is_refused() {
    let mut uri = Uri::asterisk();
    assert_eq!(uri.push(UriComponent::Slash), Err(PatternError::Asterisk));
    assert_eq!(text(&uri), "*");
}

#[test]
fn push_slash_on_root_leaves_root() {
    let mut uri = Uri::root();
    assert_eq!(uri.push(UriComponent::Slash), Ok(()));
    assert_eq!(text(&uri), "/");
    assert_eq!(uri.len(), 0);
}

#[test]
fn push_empty_static_is_refused() {
    let mut uri = Uri::root();
    assert_eq!(uri.push(UriComponent::Static(Vec::new())), Err(PatternError::EmptySegment));
    assert_eq!(uri.push(UriComponent::Static(b"a/b".to_vec())), Err(PatternError::InvalidCharacter));
}

#[test]
fn join_with_root_is_neutral() {
    let a = Uri::parse("/a/:x").unwrap();
    assert_eq!(text(&a.join(&Uri::root()).unwrap()), "/a/:x");
    assert_eq!(text(&Uri::root().join(&a).unwrap()), "/a/:x");
    assert_eq!(text(&Uri::root().join(&Uri::root()).unwrap()), "/");
}

#[test]
fn join_drops_trailing_slash_of_prefix() {
    let a = Uri::parse("/a/").unwrap();
    let b = Uri::parse("/b/c").unwrap();
    assert_eq!(text(&a.join(&b).unwrap()), "/a/b/c");
    assert_eq!(text(&a.join(&Uri::root()).unwrap()), "/a/");
}

#[test]
fn join_reports_pattern_errors() {
    let a = Uri::parse("/:id").unwrap();
    let b = Uri::parse("/x/:id").unwrap();
    assert_eq!(a.join(&b).unwrap_err(), PatternError::DuplicateName);
    let w = Uri::parse("/*rest").unwrap();
    assert_eq!(w.join(&b).unwrap_err(), PatternError::WildcardNotLast);
    assert_eq!(Uri::asterisk().join(&b).unwrap_err(), PatternError::Asterisk);
    assert_eq!(b.join(&Uri::asterisk()).unwrap_err(), PatternError::Asterisk);
}

#[test]
fn position_counts_names_in_order() {
    let uri = Uri::parse("/a/:x/b/:y/*z").unwrap();
    assert_eq!(uri.position(b"x"), Some(0));
    assert_eq!(uri.position(b"y"), Some(1));
    assert_eq!(uri.position(b"z"), Some(2));
    assert_eq!(uri.position(b"a"), None);
    assert!(uri.has_captures());
    assert!(!Uri::parse("/a/b").unwrap().has_captures());
}

#[test]
fn clone_keeps_the_pattern() {
    let uri = Uri::parse("/a/:x/*z").unwrap();
    assert_eq!(text(&uri.clone()), "/a/:x/*z");
}
