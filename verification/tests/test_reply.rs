use cookie::{Cookie, CookieJar};
use http::header::{HeaderMap, HeaderValue};
use time::Duration;
use tsukuyomi::content_type::ContentType;
use tsukuyomi::cookies::{header_text, keep_cookie, Cookies, NewCookie};
use tsukuyomi::date::TmFields;
use tsukuyomi::error::Failure;
use tsukuyomi::input::{BodyState, Input};
use tsukuyomi::method::{AllowedMethods, Method};
use tsukuyomi::redirect::{
    found, moved_permanently, permanent_redirect, see_other, temporary_redirect, to, Redirect,
};
use tsukuyomi::reply::{decimal, finish_headers, process_before_reply};

fn values(map: &HeaderMap<HeaderValue>, name: &str) -> Vec<String> {
    let mut v: Vec<String> =
        map.get_all(name).iter().map(|v| String::from_utf8(v.as_bytes().to_vec()).unwrap()).collect();
    v.sort();
    v
}

fn strings(list: &[&str]) -> Vec<String> {
    list.iter().map(|s| s.to_string()).collect()
}

fn pair(name: &str, value: &str) -> (Vec<u8>, Vec<u8>) {
    (name.as_bytes().to_vec(), value.as_bytes().to_vec())
}

#[test]
fn decimal_renders_digits() {
    assert_eq!(decimal(0), b"0".to_vec());
    assert_eq!(decimal(9), b"9".to_vec());
    assert_eq!(decimal(10), b"10".to_vec());
    assert_eq!(decimal(17), b"17".to_vec());
    assert_eq!(decimal(u64::MAX), b"18446744073709551615".to_vec());
}

#[test]
fn test_case2_single_route() {
    // The handler of `GET /hello` answers "Tsukuyomi" as plain text.
    let body = "Tsukuyomi";
    let mut output = HeaderMap::new();
    output.insert("content-type", HeaderValue::from_static("text/plain; charset=utf-8"));
    process_before_reply(&mut output, &Cookies::new(), None, Some(body.len() as u64));

    assert_eq!(
        output.get("content-type").map(|v| v.as_bytes()),
        Some(&b"text/plain; charset=utf-8"[..])
    );
    assert_eq!(output.get("content-length").map(|v| v.as_bytes()), Some(&b"9"[..]));
    assert_eq!(output.len(), 2);
    assert_eq!(body.as_bytes(), &b"Tsukuyomi"[..]);
}

#[test]
fn test_case3_post_body() {
    // The handler of `POST /hello` answers with the body of the request.
    let mut input = Input::new(String::from("Hello, Tsukuyomi."), None);
    let body = input.body().unwrap();
    assert!(input.body().is_none());

    let mut output = HeaderMap::new();
    output.insert("content-type", HeaderValue::from_static("text/plain; charset=utf-8"));
    process_before_reply(&mut output, &Cookies::new(), input.take_response_headers(), Some(body.len() as u64));

    assert_eq!(
        output.get("content-type").map(|v| v.as_bytes()),
        Some(&b"text/plain; charset=utf-8"[..])
    );
    assert_eq!(output.get("content-length").map(|v| v.as_bytes()), Some(&b"17"[..]));
    assert_eq!(body.as_bytes(), &b"Hello, Tsukuyomi."[..]);
}

#[test]
fn test_case4_cookie() {
    let expires_in = time::now() + Duration::days(7);

    // `GET /login` adds the session cookie.
    let mut cookies = Cookies::new();
    assert_eq!(cookies.jar(&vec![]), Ok(()));
    let cookie = NewCookie {
        name: String::from("session"),
        value: String::from("dummy_session_id"),
        domain: Some(String::from("www.example.com")),
        path: None,
        expires: Some(fields_of(&expires_in)),
    };
    assert!(cookies.add(cookie));
    let mut response = HeaderMap::new();
    process_before_reply(&mut response, &cookies, None, None);
    assert!(response.contains_key("set-cookie"));

    let cookie_str = response.get("set-cookie").unwrap().to_str().unwrap().to_owned();
    let cookie = Cookie::parse_encoded(cookie_str.clone()).unwrap();

    assert_eq!(cookie.name(), "session");
    assert_eq!(cookie.domain(), Some("www.example.com"));
    assert_eq!(
        cookie.expires().map(|tm| tm.to_timespec().sec),
        Some(expires_in.to_timespec().sec)
    );

    // `GET /logout` with the cookie removes it.
    let mut cookies = Cookies::new();
    assert_eq!(cookies.jar(&vec![cookie_str.as_bytes().to_vec()]), Ok(()));
    assert!(cookies.remove(String::from("session"), None, None));
    let mut response = HeaderMap::new();
    process_before_reply(&mut response, &cookies, None, None);
    assert!(response.contains_key("set-cookie"));

    let cookie_str = response.get("set-cookie").unwrap().to_str().unwrap().to_owned();
    let cookie = Cookie::parse_encoded(cookie_str).unwrap();

    assert_eq!(cookie.name(), "session");
    assert_eq!(cookie.value(), "");
    assert_eq!(cookie.max_age(), Some(Duration::zero()));
    assert!(cookie.expires().map_or(false, |tm| tm < time::now()));

    // `GET /logout` without the cookie changes nothing.
    let mut cookies = Cookies::new();
    assert_eq!(cookies.jar(&vec![]), Ok(()));
    assert!(cookies.remove(String::from("session"), None, None));
    let mut response = HeaderMap::new();
    process_before_reply(&mut response, &cookies, None, None);
    assert!(!response.contains_key("set-cookie"));
}

#[test]
fn finish_adds_cookies_staged_headers_and_length() {
    let mut output = HeaderMap::new();
    output.insert("x-a", HeaderValue::from_static("1"));
    finish_headers(
        &mut output,
        &strings(&["a=1", "b=2"]),
        &vec![pair("X-A", "2"), pair("x-b", "3")],
        Some(120),
    );
    assert_eq!(values(&output, "set-cookie"), strings(&["a=1", "b=2"]));
    assert_eq!(values(&output, "x-a"), strings(&["1", "2"]));
    assert_eq!(values(&output, "x-b"), strings(&["3"]));
    assert_eq!(values(&output, "content-length"), strings(&["120"]));
    assert_eq!(output.len(), 6);
}

#[test]
fn finish_keeps_a_length_that_is_there() {
    let mut output = HeaderMap::new();
    output.insert("content-length", HeaderValue::from_static("5"));
    finish_headers(&mut output, &vec![], &vec![], Some(120));
    assert_eq!(values(&output, "content-length"), strings(&["5"]));
    let mut output = HeaderMap::new();
    finish_headers(&mut output, &vec![], &vec![pair("Content-Length", "7")], Some(120));
    assert_eq!(values(&output, "content-length"), strings(&["7"]));
    let mut output = HeaderMap::new();
    finish_headers(&mut output, &vec![], &vec![], None);
    assert!(output.is_empty());
}

#[test]
fn finish_leaves_out_what_a_header_cannot_hold() {
    let mut output = HeaderMap::new();
    finish_headers(
        &mut output,
        &strings(&["bad\ncookie", "good=1"]),
        &vec![pair("bad name", "x"), pair("x-ok", "fine"), pair("x-bad", "a\u{7f}b")],
        None,
    );
    assert_eq!(values(&output, "set-cookie"), strings(&["good=1"]));
    assert_eq!(values(&output, "x-ok"), strings(&["fine"]));
    assert_eq!(output.len(), 2);
}

#[test]
fn staged_headers_are_merged_beside_those_that_are_there() {
    let mut output = HeaderMap::new();
    output.append("vary", HeaderValue::from_static("accept"));
    let mut staged = HeaderMap::new();
    staged.append("vary", HeaderValue::from_static("origin"));
    staged.append("vary", HeaderValue::from_static("cookie"));
    staged.append("x-request-id", HeaderValue::from_static("42"));
    process_before_reply(&mut output, &Cookies::new(), Some(staged), None);
    assert_eq!(values(&output, "vary"), strings(&["accept", "cookie", "origin"]));
    assert_eq!(values(&output, "x-request-id"), strings(&["42"]));
    assert_eq!(output.len(), 4);
}

#[test]
fn cookies_are_read_from_the_headers() {
    let mut cookies = Cookies::new();
    assert!(!cookies.is_loaded());
    assert!(cookies.get().is_none());
    assert!(cookies.delta().is_empty());
    let headers = vec![b"a=1; b=two%20words".to_vec(), b" c = 3 ".to_vec()];
    assert_eq!(cookies.jar(&headers), Ok(()));
    assert!(cookies.is_loaded());
    let jar = cookies.get().unwrap();
    assert_eq!(jar.get("a").map(|c| c.value()), Some("1"));
    assert_eq!(jar.get("b").map(|c| c.value()), Some("two words"));
    assert_eq!(jar.get("c").map(|c| c.value()), Some("3"));
    assert_eq!(jar.iter().count(), 3);
    assert!(cookies.delta().is_empty());
}

#[test]
fn cookies_are_read_once() {
    let mut cookies = Cookies::new();
    assert_eq!(cookies.jar(&vec![b"a=1".to_vec()]), Ok(()));
    assert_eq!(cookies.jar(&vec![b"b=2".to_vec()]), Ok(()));
    let jar = cookies.get().unwrap();
    assert_eq!(jar.get("a").map(|c| c.value()), Some("1"));
    assert!(jar.get("b").is_none());
}

#[test]
fn later_cookie_takes_the_place_of_the_earlier_one() {
    let mut cookies = Cookies::new();
    assert_eq!(cookies.jar(&vec![b"a=1; a=2".to_vec()]), Ok(()));
    let jar = cookies.get().unwrap();
    assert_eq!(jar.get("a").map(|c| c.value()), Some("2"));
    assert_eq!(jar.iter().count(), 1);
}

#[test]
fn bad_cookie_headers_are_bad_requests() {
    for bad in [&b"a=1; novalue"[..], &b""[..], &b"a=1;"[..], &b"a=\xff"[..], &b"a=1\n"[..], &b"=1"[..]] {
        let mut cookies = Cookies::new();
        assert_eq!(cookies.jar(&vec![bad.to_vec()]), Err(Failure::BadRequest));
        assert!(cookies.is_loaded());
    }
    // What was read before the bad piece stays in the jar.
    let mut cookies = Cookies::new();
    assert_eq!(cookies.jar(&vec![b"a=1; b".to_vec(), b"c=3".to_vec()]), Err(Failure::BadRequest));
    let jar = cookies.get().unwrap();
    assert_eq!(jar.get("a").map(|c| c.value()), Some("1"));
    assert!(jar.get("c").is_none());
    assert_eq!(cookies.jar(&vec![]), Ok(()));
}

#[test]
fn changes_to_the_jar_are_listed() {
    let mut cookies = Cookies::new();
    assert_eq!(cookies.jar(&vec![b"old=1".to_vec()]), Ok(()));
    assert!(cookies.add(plain("my name", "a value")));
    let delta = cookies.delta();
    assert_eq!(delta, vec![(String::from("my name"), String::from("my%20name=a%20value"))]);
}

#[test]
fn kept_cookie_is_an_original() {
    let mut jar = CookieJar::new();
    assert!(keep_cookie(&mut jar, Some((String::from("a"), String::from("b")))));
    assert!(!keep_cookie(&mut jar, None));
    assert_eq!(jar.get("a").map(|c| c.value()), Some("b"));
    assert_eq!(jar.delta().count(), 0);
}

#[test]
fn header_text_is_visible_ascii() {
    assert_eq!(header_text(b"text/plain; q=1"), Some("text/plain; q=1"));
    assert_eq!(header_text(b"a\tb"), Some("a\tb"));
    assert_eq!(header_text(b""), Some(""));
    assert_eq!(header_text(b"a\nb"), None);
    assert_eq!(header_text(b"caf\xc3\xa9"), None);
    assert_eq!(header_text(b"\x7f"), None);
}

#[test]
fn content_type_is_parsed_once() {
    let mut ct = ContentType::new();
    let first = ct.content_type(Some(b"application/json; charset=utf-8")).map(|m| m.map(|m| m.to_string()));
    assert_eq!(first, Ok(Some(String::from("application/json; charset=utf-8"))));
    assert_eq!(ct.media_type(), Some("application/json; charset=utf-8"));
    // The header is not looked at again.
    let second = ct.content_type(Some(b"text/plain")).map(|m| m.map(|m| m.to_string()));
    assert_eq!(second, Ok(Some(String::from("application/json; charset=utf-8"))));
}

#[test]
fn missing_content_type_is_kept_too() {
    let mut ct = ContentType::new();
    assert!(matches!(ct.content_type(None), Ok(None)));
    assert!(matches!(ct.content_type(Some(b"text/plain")), Ok(None)));
}

#[test]
fn bad_content_type_is_a_bad_request() {
    let mut ct = ContentType::new();
    assert!(matches!(ct.content_type(Some(b"no slash")), Err(Failure::BadRequest)));
    assert!(matches!(ct.content_type(Some(b"text/\xffplain")), Err(Failure::BadRequest)));
    // A bad value is looked at again.
    let again = ct.content_type(Some(b"text/plain")).map(|m| m.map(|m| m.to_string()));
    assert_eq!(again, Ok(Some(String::from("text/plain"))));
    assert!(matches!(ct.remember(None), Err(Failure::BadRequest)));
    assert!(matches!(
        ct.remember(Some(("image/png".parse().unwrap(), String::from("image/png")))),
        Ok(())
    ));
    assert_eq!(ct.content_type(None).map(|m| m.map(|m| m.to_string())), Ok(Some(String::from("image/png"))));
    assert_eq!(ct.media_type(), Some("image/png"));
}

#[test]
fn input_tracks_the_body() {
    let mut input = Input::new(5u8, Some(Some(AllowedMethods::single(Method::Get))));
    assert!(!input.is_upgraded());
    assert_eq!(input.allowed_methods(), Some(Some(AllowedMethods::single(Method::Get))));
    assert_eq!(input.body(), Some(5));
    assert_eq!(input.body(), None);
    assert!(!input.is_upgraded());
    assert_eq!(input.upgrade("callback"), Err("callback"));
    assert!(input.is_upgraded());
    // Taking the body makes the input forget the upgrade.
    assert_eq!(input.body(), None);
    assert!(!input.is_upgraded());

    let mut input = Input::new(6u8, None);
    assert_eq!(input.upgrade("callback"), Ok((6, "callback")));
    assert!(input.is_upgraded());
    assert_eq!(input.upgrade("again"), Err("again"));
    assert!(matches!(BodyState::Present(1u8), BodyState::Present(1)));
}

#[test]
fn input_stages_headers() {
    let mut input = Input::new((), None);
    assert!(input.take_response_headers().is_none());
    input.response_headers();
    assert!(input.take_response_headers().unwrap().is_empty());
    assert!(input.take_response_headers().is_none());
}

#[test]
fn redirects_carry_status_and_location() {
    let (status, headers) = Redirect::new(302, String::from("/login")).into_response();
    assert_eq!(status, 302);
    assert_eq!(values(&headers, "location"), strings(&["/login"]));
    assert_eq!(headers.len(), 1);
    assert_eq!(moved_permanently(String::from("/a")).into_response().0, 301);
    assert_eq!(found(String::from("/a")).into_response().0, 302);
    assert_eq!(see_other(String::from("/a")).into_response().0, 303);
    assert_eq!(temporary_redirect(String::from("/a")).into_response().0, 307);
    assert_eq!(permanent_redirect(String::from("/a")).into_response().0, 308);
    assert_eq!(to(String::from("/a")).into_response().0, 301);
    // A location that no header can hold gives no header.
    let (_, headers) = see_other(String::from("/a\nb")).into_response();
    assert!(headers.is_empty());
}

fn fields_of(tm: &time::Tm) -> TmFields {
    TmFields {
        tm_sec: tm.tm_sec,
        tm_min: tm.tm_min,
        tm_hour: tm.tm_hour,
        tm_mday: tm.tm_mday,
        tm_mon: tm.tm_mon,
        tm_year: tm.tm_year,
        tm_wday: tm.tm_wday,
        tm_yday: tm.tm_yday,
        tm_isdst: tm.tm_isdst,
        tm_utcoff: tm.tm_utcoff,
        tm_nsec: tm.tm_nsec,
    }
}

fn plain(name: &str, value: &str) -> NewCookie {
    NewCookie {
        name: String::from(name),
        value: String::from(value),
        domain: None,
        path: None,
        expires: None,
    }
}

fn loaded(header: &[u8]) -> Cookies {
    let mut cookies = Cookies::new();
    assert_eq!(cookies.jar(&vec![header.to_vec()]), Ok(()));
    cookies
}

#[test]
fn cookies_are_set_with_their_attributes() {
    let mut cookies = loaded(b"old=1");
    let expires = TmFields {
        tm_sec: 37,
        tm_min: 49,
        tm_hour: 8,
        tm_mday: 6,
        tm_mon: 10,
        tm_year: 94,
        tm_wday: 0,
        tm_yday: 0,
        tm_isdst: 0,
        tm_utcoff: 0,
        tm_nsec: 0,
    };
    let cookie = NewCookie {
        name: String::from("id"),
        value: String::from("a b"),
        domain: Some(String::from("example.com")),
        path: Some(String::from("/app")),
        expires: Some(expires),
    };
    assert!(cookies.add(cookie));
    assert_eq!(
        cookies.delta(),
        vec![(
            String::from("id"),
            String::from("id=a%20b; Path=/app; Domain=example.com; Expires=Sun, 06 Nov 1994 08:49:37 GMT")
        )]
    );
    // The cookies that came with the request stay.
    assert_eq!(cookies.get().unwrap().get("old").map(|c| c.value()), Some("1"));
}

#[test]
fn a_cookie_takes_the_place_of_the_change_of_its_name() {
    let mut cookies = loaded(b"old=1");
    assert!(cookies.add(plain("a", "1")));
    assert!(cookies.add(plain("b", "2")));
    assert!(cookies.add(plain("a", "3")));
    let mut delta = cookies.delta();
    delta.sort();
    assert_eq!(
        delta,
        vec![
            (String::from("a"), String::from("a=3")),
            (String::from("b"), String::from("b=2")),
        ]
    );
}

#[test]
fn a_cookie_that_cannot_be_printed_is_refused() {
    let mut cookies = loaded(b"old=1");
    let mut cookie = plain("a", "1");
    cookie.expires = Some(TmFields {
        tm_sec: 0,
        tm_min: 0,
        tm_hour: 0,
        tm_mday: 1,
        tm_mon: 12,
        tm_year: 100,
        tm_wday: 9,
        tm_yday: 0,
        tm_isdst: 0,
        tm_utcoff: 0,
        tm_nsec: 0,
    });
    assert!(!cookies.add(cookie));
    assert!(cookies.delta().is_empty());
    let mut response = HeaderMap::new();
    process_before_reply(&mut response, &cookies, None, None);
    assert!(response.is_empty());
}

#[test]
fn cookies_cannot_be_changed_before_the_jar_is_filled() {
    let mut cookies = Cookies::new();
    assert!(!cookies.add(plain("a", "1")));
    assert!(!cookies.remove(String::from("a"), None, None));
    assert!(!cookies.is_loaded());
    assert!(cookies.delta().is_empty());
}

#[test]
fn removing_drops_a_change_or_tells_the_client() {
    let mut cookies = loaded(b"old=1");
    assert!(cookies.add(plain("new", "2")));
    // A cookie that was only set is no longer set.
    assert!(cookies.remove(String::from("new"), None, None));
    assert!(cookies.delta().is_empty());
    // A cookie that came with the request is told to go.
    assert!(cookies.remove(String::from("old"), None, Some(String::from("/"))));
    let delta = cookies.delta();
    assert_eq!(delta.len(), 1);
    assert_eq!(delta[0].0, "old");
    assert!(delta[0].1.starts_with("old=; Path=/; Max-Age=0; Expires="));
    assert_eq!(cookies.get().unwrap().get("old"), None);
}

#[test]
fn headers_are_staged_through_the_input() {
    let mut input = Input::new((), None);
    assert!(input.stage_header(b"Vary", b"origin"));
    assert!(input.stage_header(b"vary", b"cookie"));
    assert!(input.stage_header(b"x-id", b"7"));
    assert!(!input.stage_header(b"bad name", b"x"));
    assert!(!input.stage_header(b"x-bad", b"a\nb"));
    let mut output = HeaderMap::new();
    output.append("vary", HeaderValue::from_static("accept"));
    process_before_reply(&mut output, &Cookies::new(), input.take_response_headers(), None);
    assert_eq!(values(&output, "vary"), strings(&["accept", "cookie", "origin"]));
    assert_eq!(values(&output, "x-id"), strings(&["7"]));
    assert_eq!(output.len(), 4);
    assert!(input.take_response_headers().is_none());
}

#[test]
fn staging_a_refused_header_still_makes_the_map() {
    let mut input = Input::new((), None);
    assert!(!input.stage_header(b"", b"x"));
    assert!(input.take_response_headers().unwrap().is_empty());
}

#[test]
fn input_is_told_of_the_matched_route() {
    let mut input = Input::new((), None);
    assert_eq!(input.allowed_methods(), None);
    input.set_allowed_methods(Some(None));
    assert_eq!(input.allowed_methods(), Some(None));
    input.set_allowed_methods(Some(Some(AllowedMethods::single(Method::Put))));
    assert_eq!(input.allowed_methods(), Some(Some(AllowedMethods::single(Method::Put))));
}

#[test]
fn media_type_is_kept_in_lower_case() {
    let mut ct = ContentType::new();
    assert_eq!(ct.media_type(), None);
    assert!(ct.content_type(Some(b"Text/HTML; Charset=UTF-8")).is_ok());
    assert_eq!(ct.media_type(), Some("text/html; charset=utf-8"));
    let mut none = ContentType::new();
    assert!(matches!(none.content_type(None), Ok(None)));
    assert_eq!(none.media_type(), None);
}
