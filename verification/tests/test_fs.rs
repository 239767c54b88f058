use std::path::PathBuf;
use tsukuyomi::date::TmFields;
use tsukuyomi::error::Failure;
use tsukuyomi::fs::{
    cache_control, condition_of, file_time_of, finalize_block_size, is_modified, push_hex,
    to_unsigned, ArcPath, Condition, ETag, EntryKind, FileReply, FileTime, NamedFile, OpenConfig,
    OpenFutureInner, OpenStep, ReadStep, ReadStream, ServeFile, Staticfiles, StaticfilesError,
};
use tsukuyomi::input::Params;
use tsukuyomi::method::Method;
use tsukuyomi::recognizer::Captures;
use tsukuyomi::uri::{PatternError, Uri};

fn hex(n: u64) -> String {
    let mut v = Vec::new();
    push_hex(&mut v, n);
    String::from_utf8(v).unwrap()
}

fn etag(s: &str) -> ETag {
    ETag::from_str(s).unwrap()
}

fn text(e: &ETag) -> String {
    String::from_utf8(e.render()).unwrap()
}

const MODIFIED: FileTime = FileTime { seconds: 784111777, nanos: 500 };

#[test]
fn hex_renders_lower_case_digits() {
    assert_eq!(hex(0), "0");
    assert_eq!(hex(9), "9");
    assert_eq!(hex(10), "a");
    assert_eq!(hex(255), "ff");
    assert_eq!(hex(4096), "1000");
    assert_eq!(hex(u64::MAX), format!("{:x}", u64::MAX));
    assert_eq!(hex(to_unsigned(-1)), format!("{:x}", -1i64));
    assert_eq!(hex(to_unsigned(i64::MIN)), format!("{:x}", i64::MIN));
    assert_eq!(to_unsigned(5), 5);
}

#[test]
fn etag_of_metadata() {
    let e = ETag::from_metadata(1234, &FileTime { seconds: 1540000000, nanos: 987654321 });
    assert_eq!(text(&e), format!("W/\"{:x}-{:x}.{:x}\"", 1234, 1540000000i64, 987654321u32));
    assert_eq!(text(&e), "W/\"4d2-5bca8900.3ade68b1\"");
}

#[test]
fn etag_parses_weak_and_strong_tags() {
    assert_eq!(text(&etag("\"abc\"")), "\"abc\"");
    assert_eq!(text(&etag("W/\"abc\"")), "W/\"abc\"");
    assert_eq!(text(&etag("W/\"\"")), "W/\"\"");
    assert_eq!(text(&etag("\"a\"")), "\"a\"");
}

#[test]
fn etag_refuses_malformed_text() {
    for bad in ["", "\"\"", "ab", "abc", "W/abc", "\"abc", "abc\"", "W/\"abc", "w/\"abc\"", "\"caf\u{e9}\"", "\u{e9}\"a\""] {
        assert!(ETag::from_str(bad).is_none(), "{:?} should be refused", bad);
    }
    assert!(ETag::parse_inner(false, b"\"").is_none());
    assert!(ETag::parse_inner(true, b"\"\"").is_some());
}

#[test]
fn etag_comparison_is_not_symmetric() {
    let weak = etag("W/\"a\"");
    let strong = etag("\"a\"");
    let other = etag("\"b\"");
    assert!(weak.eq(&weak));
    assert!(strong.eq(&strong));
    assert!(weak.eq(&strong));
    assert!(!strong.eq(&weak));
    assert!(!strong.eq(&other));
}

#[test]
fn cache_control_names_the_max_age() {
    let config = OpenConfig { chunk_size: None, max_age: Some(3600) };
    assert_eq!(cache_control(&config), b"public, max-age=3600".to_vec());
    assert_eq!(cache_control(&OpenConfig::default()), b"public".to_vec());
    assert_eq!(OpenConfig::default(), OpenConfig { chunk_size: None, max_age: None });
}

#[test]
fn block_size_is_capped_by_the_length() {
    assert_eq!(finalize_block_size(Some(1024), 100, 4096), 100);
    assert_eq!(finalize_block_size(Some(1024), 5000, 4096), 1024);
    assert_eq!(finalize_block_size(None, 100, 4096), 100);
    assert_eq!(finalize_block_size(None, 5000, 4096), 4096);
    assert_eq!(finalize_block_size(None, 0, 4096), 0);
}

#[test]
fn condition_is_read_from_the_headers() {
    match condition_of(Some(b"\"abc\""), Some(b"Sun, 06 Nov 1994 08:49:37 GMT")) {
        Condition::NoneMatch(raw) => assert_eq!(raw, b"\"abc\"".to_vec()),
        _ => panic!("the entity tag counts first"),
    }
    assert!(matches!(condition_of(None, None), Condition::Unconditional));
    for date in ["Sun, 06 Nov 1994 08:49:37 GMT", "Sunday, 06-Nov-94 08:49:37 GMT", "Sun Nov  6 08:49:37 1994"] {
        match condition_of(None, Some(date.as_bytes())) {
            Condition::ModifiedSince(Some(t)) => {
                assert_eq!(t, FileTime { seconds: 784111777, nanos: 0 })
            }
            _ => panic!("{:?} should be a date", date),
        }
    }
    assert!(matches!(condition_of(None, Some(b"yesterday")), Condition::ModifiedSince(None)));
    assert!(matches!(condition_of(None, Some(b"\xff")), Condition::ModifiedSince(None)));
    assert_eq!(
        file_time_of(Some(fields(1994, 11, 6, 8, 49, 37))),
        Some(FileTime { seconds: 784111777, nanos: 0 })
    );
    assert_eq!(file_time_of(Some(TmFields { tm_nsec: -7, ..fields(1994, 11, 6, 8, 49, 37) })), None);
    assert_eq!(file_time_of(None), None);
}

#[test]
fn unchanged_files_are_not_modified() {
    let own = ETag::from_metadata(10, &MODIFIED);
    let same = Condition::NoneMatch(own.render());
    assert_eq!(is_modified(&own, &MODIFIED, &same), Ok(false));
    let other = Condition::NoneMatch(b"\"other\"".to_vec());
    assert_eq!(is_modified(&own, &MODIFIED, &other), Ok(true));
    let bad = Condition::NoneMatch(b"other".to_vec());
    assert_eq!(is_modified(&own, &MODIFIED, &bad), Err(Failure::BadRequest));
    let bad = Condition::NoneMatch(b"\"a\n\"".to_vec());
    assert_eq!(is_modified(&own, &MODIFIED, &bad), Err(Failure::BadRequest));

    let since = |seconds, nanos| Condition::ModifiedSince(Some(FileTime { seconds, nanos }));
    assert_eq!(is_modified(&own, &MODIFIED, &since(784111777, 500)), Ok(false));
    assert_eq!(is_modified(&own, &MODIFIED, &since(784111777, 499)), Ok(true));
    assert_eq!(is_modified(&own, &MODIFIED, &since(784111776, 999)), Ok(true));
    assert_eq!(is_modified(&own, &MODIFIED, &since(784111778, 0)), Ok(false));
    assert_eq!(is_modified(&own, &MODIFIED, &Condition::ModifiedSince(None)), Err(Failure::BadRequest));
    assert_eq!(is_modified(&own, &MODIFIED, &Condition::Unconditional), Ok(true));
    assert!(MODIFIED.is_later_than(&FileTime { seconds: 0, nanos: 900 }));
}

#[test]
fn file_responses_carry_the_cache_headers() {
    let config = OpenConfig { chunk_size: Some(512), max_age: Some(60) };
    let file = NamedFile::new(2000, 4096, MODIFIED, config);
    let when = Some(String::from("Sun Nov  6 08:49:37 1994"));
    match file.respond_to(&Condition::Unconditional, when.clone()) {
        Ok(FileReply::Send { cache_control, last_modified, etag, buf_size }) => {
            assert_eq!(cache_control, b"public, max-age=60".to_vec());
            assert_eq!(last_modified, "Sun Nov  6 08:49:37 1994");
            assert_eq!(etag, file.etag.render());
            assert_eq!(buf_size, 512);
        }
        _ => panic!("the file should be sent"),
    }
    let known = Condition::NoneMatch(file.etag.render());
    assert!(matches!(file.respond_to(&known, when.clone()), Ok(FileReply::NotModified)));
    assert!(matches!(file.respond_to(&known, None), Ok(FileReply::NotModified)));
    assert!(matches!(
        file.respond_to(&Condition::Unconditional, None),
        Err(Failure::InternalServerError)
    ));
    assert!(matches!(
        file.respond_to(&Condition::ModifiedSince(None), when),
        Err(Failure::BadRequest)
    ));
}

#[test]
fn read_stream_ends_on_an_empty_read() {
    let mut stream = ReadStream::new(10_000, 4096, None);
    assert_eq!(stream, ReadStream::Reading { buf_size: 4096 });
    assert_eq!(stream.poll(), ReadStep::Read(4096));
    assert_eq!(stream.on_read(4096), ReadStep::Yield);
    assert_eq!(stream.poll(), ReadStep::Read(4096));
    assert_eq!(stream.on_read(0), ReadStep::End);
    assert_eq!(stream, ReadStream::Eof);
    assert_eq!(stream.poll(), ReadStep::End);
    assert_eq!(stream.on_read(7), ReadStep::End);
}

#[test]
fn open_future_opens_or_fails() {
    let config = OpenConfig { chunk_size: Some(1), max_age: None };
    assert!(matches!(NamedFile::open("a").poll(), OpenStep::Open("a", c) if c == OpenConfig::default()));
    assert!(matches!(NamedFile::open_with_config("a", config).poll(), OpenStep::Open("a", c) if c == config));
}

fn serve(extract_path: bool) -> ServeFile {
    ServeFile {
        path: ArcPath::from(PathBuf::from("/srv/www")),
        config: Some(OpenConfig { chunk_size: None, max_age: Some(1) }),
        extract_path,
    }
}

#[test]
fn serve_file_opens_its_path() {
    let handler = serve(false);
    assert_eq!(handler.allowed_methods().render(), "GET");
    assert!(handler.allowed_methods().contains(Method::Get));
    match handler.call(&None).inner {
        OpenFutureInner::Opening(path, config) => {
            assert_eq!(path.as_ref(), &PathBuf::from("/srv/www"));
            assert_eq!(config, handler.config);
        }
        _ => panic!("the file should be opened"),
    }
}

#[test]
fn serve_dir_takes_the_rest_of_the_path() {
    let handler = serve(true);
    let uri = Uri::parse("/static/*path").unwrap();
    let captures = Captures { params: vec![], wildcard: Some((8, 17)) };
    let params = Some(Params::new("/static/css/a.css", &uri, &captures));
    match handler.call(&params).inner {
        OpenFutureInner::Opening(path, _) => {
            assert_eq!(path.as_ref(), &PathBuf::from("/srv/www/css/a.css"));
        }
        _ => panic!("the file should be opened"),
    }
    let failed = handler.call(&None);
    assert!(matches!(failed.inner, OpenFutureInner::Failed(Some(Failure::InternalServerError))));
    assert!(matches!(failed.poll(), OpenStep::Fail(Failure::InternalServerError)));
    let captures = Captures { params: vec![], wildcard: None };
    let params = Some(Params::new("/static/css/a.css", &uri, &captures));
    assert!(matches!(handler.call(&params).inner, OpenFutureInner::Failed(_)));
}

#[test]
fn arc_path_shares_and_joins() {
    let path = ArcPath::from(PathBuf::from("/srv"));
    assert_eq!(path.clone().as_ref(), &PathBuf::from("/srv"));
    assert_eq!(path.join("www").as_ref(), &PathBuf::from("/srv/www"));
}

#[test]
fn staticfiles_route_their_entries() {
    let config = OpenConfig { chunk_size: None, max_age: Some(5) };
    let files = Staticfiles::new("/srv").open_config(config);
    assert_eq!(files.root_dir(), &"/srv");
    let path = ArcPath::from(PathBuf::from("/srv/index.html"));
    let (uri, handler) = files.configure("index.html", path, EntryKind::File).ok().unwrap();
    assert_eq!(String::from_utf8(uri.render()).unwrap(), "/index.html");
    assert!(!handler.extract_path);
    assert_eq!(handler.config, Some(config));
    assert_eq!(handler.path.as_ref(), &PathBuf::from("/srv/index.html"));

    let path = ArcPath::from(PathBuf::from("/srv/css"));
    let (uri, handler) = Staticfiles::new("/srv").configure("css", path, EntryKind::Dir).ok().unwrap();
    assert_eq!(String::from_utf8(uri.render()).unwrap(), "/css/*path");
    assert!(handler.extract_path);
    assert_eq!(handler.config, None);

    let path = ArcPath::from(PathBuf::from("/srv/sock"));
    assert!(matches!(
        files.configure("sock", path.clone(), EntryKind::Other),
        Err(StaticfilesError::UnexpectedFileType)
    ));
    assert!(matches!(
        files.configure("a:b", path.clone(), EntryKind::File),
        Err(StaticfilesError::Pattern(PatternError::InvalidCharacter))
    ));
    // A name that starts with a colon reads as a capture.
    let (uri, _) = files.configure(":x", path, EntryKind::File).ok().unwrap();
    assert!(uri.has_captures());
}

#[test]
fn dates_are_times_in_one_of_three_forms() {
    for date in [
        "Sun, 06 Nov 1994 08:49:37 GMT",
        "Sunday, 06-Nov-94 08:49:37 GMT",
        "Sun Nov  6 08:49:37 1994",
    ] {
        match condition_of(None, Some(date.as_bytes())) {
            Condition::ModifiedSince(Some(t)) => assert!(t.nanos < 1_000_000_000),
            _ => panic!("{:?} should be a date", date),
        }
    }
    for text in ["", "06 Nov 1994", "Sun, 06 Nov 1994", "1994-11-06T08:49:37Z"] {
        assert!(matches!(
            condition_of(None, Some(text.as_bytes())),
            Condition::ModifiedSince(None)
        ));
    }
}

fn fields(year: i32, month: i32, day: i32, hour: i32, minute: i32, second: i32) -> TmFields {
    TmFields {
        tm_sec: second,
        tm_min: minute,
        tm_hour: hour,
        tm_mday: day,
        tm_mon: month - 1,
        tm_year: year - 1900,
        tm_wday: 0,
        tm_yday: 0,
        tm_isdst: 0,
        tm_utcoff: 0,
        tm_nsec: 0,
    }
}

#[test]
fn calendar_fields_give_seconds() {
    assert_eq!(fields(1970, 1, 1, 0, 0, 0).to_utc_seconds(), Some(0));
    assert_eq!(fields(1969, 12, 31, 23, 59, 59).to_utc_seconds(), Some(-1));
    assert_eq!(fields(1994, 11, 6, 8, 49, 37).to_utc_seconds(), Some(784111777));
    assert_eq!(fields(2000, 2, 29, 0, 0, 0).to_utc_seconds(), Some(951782400));
    assert_eq!(fields(9999, 12, 31, 23, 59, 59).to_utc_seconds(), Some(253402300799));
    assert_eq!(fields(1, 1, 1, 0, 0, 0).to_utc_seconds(), Some(-62135596800));
    assert_eq!(fields(1500, 1, 1, 0, 0, 0).to_utc_seconds(), Some(-14831769600));
    // A day beyond the end of the month counts on into the next.
    assert_eq!(fields(2024, 2, 31, 12, 0, 0).to_utc_seconds(), Some(1709380800));
    assert_eq!(fields(2024, 3, 2, 12, 0, 0).to_utc_seconds(), Some(1709380800));
    // The extremes of the fields fit.
    let far = TmFields { tm_year: i32::MAX, tm_mday: i32::MAX, tm_hour: i32::MAX, ..fields(1970, 12, 1, 0, 0, 0) };
    assert!(far.to_utc_seconds().is_some());
    let early = TmFields { tm_year: i32::MIN, tm_mday: i32::MIN, tm_sec: i32::MIN, ..fields(1970, 1, 1, 0, 0, 0) };
    assert!(early.to_utc_seconds().is_some());
}

#[test]
fn fields_that_are_no_universal_time_give_no_seconds() {
    let base = fields(1994, 11, 6, 8, 49, 37);
    assert_eq!(TmFields { tm_mon: 12, ..base }.to_utc_seconds(), None);
    assert_eq!(TmFields { tm_mon: -1, ..base }.to_utc_seconds(), None);
    assert_eq!(TmFields { tm_utcoff: 3600, ..base }.to_utc_seconds(), None);
    assert_eq!(TmFields { tm_nsec: 1_000_000_000, ..base }.to_utc_seconds(), None);
    assert!(base.is_printable());
    assert!(!TmFields { tm_wday: 7, ..base }.is_printable());
    assert!(!TmFields { tm_wday: -1, ..base }.is_printable());
    assert!(!TmFields { tm_mon: 12, ..base }.is_printable());
}

#[test]
fn dates_that_no_system_clock_holds_are_times_too() {
    match condition_of(None, Some(b"Mon, 01 Jan 1500 00:00:00 GMT")) {
        Condition::ModifiedSince(Some(t)) => {
            assert_eq!(t, FileTime { seconds: -14831769600, nanos: 0 })
        }
        _ => panic!("the date should be read"),
    }
    match condition_of(None, Some(b"Sat, 31 Feb 2024 12:00:00 GMT")) {
        Condition::ModifiedSince(Some(t)) => {
            assert_eq!(t, FileTime { seconds: 1709380800, nanos: 0 })
        }
        _ => panic!("the date should be read"),
    }
}
