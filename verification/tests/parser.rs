use httpwire::data::{Method, Request, Version};
use httpwire::parser::{
    content_length, parse, parse_09, parse_10, parse_body, parse_colon, parse_crlf, parse_decimal,
    parse_fixed,
    parse_header, parse_http10_version, parse_method, parse_path, parse_token, skip_space,
    ParseResult,
};

fn complete(outcome: ParseResult<Request>) -> Request {
    match outcome {
        ParseResult::Complete(request) => request,
        ParseResult::Partial => panic!("partial"),
        ParseResult::Error => panic!("error"),
    }
}

fn is_error<T>(outcome: &ParseResult<T>) -> bool {
    matches!(outcome, ParseResult::Error)
}

#[test]
fn test_parse_header() {
    let header = b"Header: Authorization: Bearer token\r\n";
    let header = &mut &header[..];
    let (name, value) = match parse_header(header) {
        ParseResult::Complete((n, v)) => (n, v),
        _ => return assert!(false),
    };
    assert_eq!(name, "Header");
    assert_eq!(value.unwrap(), b" Authorization: Bearer token");
}

#[test]
fn http10_parse_method() {
    let request = b"GET /foo/bar HTTP/1.0\r\n";
    let request = &mut &request[..];
    let method = parse_method(request);
    let result = match method {
        ParseResult::Complete(Method::Get) => true,
        _ => {
            println!("not matched");
            false
        }
    };
    assert!(result);
    let result = match skip_space(request) {
        ParseResult::Complete(()) => true,
        _ => false,
    };
    assert!(result);
    let path = match parse_path(request) {
        ParseResult::Complete(p) => p,
        _ => "",
    };
    assert_eq!(path, "/foo/bar");
    let result = match skip_space(request) {
        ParseResult::Complete(()) => true,
        _ => false,
    };
    assert!(result);
    let result = match parse_http10_version(request) {
        ParseResult::Complete(()) => true,
        _ => false,
    };
    assert!(result);
    let result = match parse_crlf(request) {
        ParseResult::Complete(()) => true,
        _ => false,
    };
    assert!(result);
}

#[test]
fn http09_get_success_root() {
    let req = b"GET /\r\n";
    let res = parse(req);
    assert!(res.is_complete());
}

#[test]
fn http09_get_success_foo_bar() {
    let req = b"GET /foo/bar\r\n";
    let res = parse(req);
    assert!(res.is_complete());
}

#[test]
fn http09_get_partial_root() {
    let req = b"GET /\r";
    let res = parse(req);
    assert!(res.is_partial());
}

#[test]
#[should_panic(expected = "panic")]
fn http09_past_failure() {
    let req = b"POST /\r\n";
    let res = parse(req);
    assert!(res.is_complete(), "panic");
}

#[test]
fn simple_request_root_has_method_and_path() {
    let request = complete(parse(b"GET /\r\n"));
    assert_eq!(request.method, Method::Get);
    assert_eq!(request.path, "/");
    assert_eq!(request.version, Version::HTTP09);
    assert!(request.headers.is_empty());
    assert_eq!(request.body, None);
}

#[test]
fn simple_request_keeps_whole_path() {
    let request = complete(parse(b"GET /foo/bar\r\n"));
    assert_eq!(request.path, "/foo/bar");
    assert_eq!(request.method, Method::Get);
}

#[test]
fn simple_request_without_line_feed_is_partial() {
    assert!(parse(b"GET /\r").is_partial());
    assert!(parse(b"GET ").is_partial());
    assert!(parse(b"GET /index.html").is_partial());
}

#[test]
fn post_without_version_is_refused_by_both_grammars() {
    assert!(is_error(&parse(b"POST /\r\n")));
    assert!(is_error(&parse_10(b"POST /\r\n")));
    assert!(is_error(&parse_09(b"POST /\r\n")));
}

#[test]
fn simple_request_path_ends_at_first_crlf() {
    let request = complete(parse_09(b"GET /a\r\nb\r\n"));
    assert_eq!(request.path, "/a");
    let request = complete(parse_09(b"GET /a\r\ntrailing"));
    assert_eq!(request.path, "/a");
    let request = complete(parse_09(b"GET /a\rb\r\n"));
    assert_eq!(request.path, "/a\rb");
}

#[test]
fn simple_request_needs_its_prefix() {
    assert!(is_error(&parse_09(b"")));
    assert!(is_error(&parse_09(b"GE")));
    assert!(is_error(&parse_09(b"GET")));
    assert!(is_error(&parse_09(b"get /\r\n")));
    assert!(is_error(&parse_09(b"HEAD /\r\n")));
}

#[test]
fn simple_request_path_must_be_utf8() {
    assert!(is_error(&parse_09(b"GET /\xff\r\n")));
    assert!(parse_09(b"GET /\xff").is_partial());
    let request = complete(parse_09("GET /caf\u{e9}\r\n".as_bytes()));
    assert_eq!(request.path, "/caf\u{e9}");
}

#[test]
fn full_request_without_headers() {
    let request = complete(parse(b"GET /index.html HTTP/1.0\r\n\r\n"));
    assert_eq!(request.method, Method::Get);
    assert_eq!(request.path, "/index.html");
    assert_eq!(request.version, Version::HTTP10);
    assert_eq!(request.headers.len(), 0);
    assert_eq!(request.body, None);
}

#[test]
fn full_request_with_body_of_declared_length() {
    let request = complete(parse(b"POST /form HTTP/1.0\r\nContent-Length: 5\r\n\r\nhello"));
    assert_eq!(request.method, Method::Post);
    assert_eq!(request.path, "/form");
    assert_eq!(request.version, Version::HTTP10);
    assert_eq!(request.body, Some(&b"hello"[..]));
    assert_eq!(request.headers.get("Content-Length"), Some(&Some(&b" 5"[..])));
    assert_eq!(request.headers.len(), 1);
}

#[test]
fn full_request_with_short_body_is_partial() {
    assert!(parse(b"POST /form HTTP/1.0\r\nContent-Length: 5\r\n\r\nhel").is_partial());
    assert!(parse_10(b"POST /form HTTP/1.0\r\nContent-Length: 5\r\n\r\nhel").is_partial());
    assert!(parse(b"POST /form HTTP/1.0\r\nContent-Length: 5\r\n\r\n").is_partial());
}

#[test]
fn partial_full_request_is_not_tried_as_simple_request() {
    let bytes = b"GET /form HTTP/1.0\r\nContent-Length: 5\r\n\r\nhel";
    assert!(parse_09(bytes).is_complete());
    assert!(parse_10(bytes).is_partial());
    assert!(parse(bytes).is_partial());
}

#[test]
fn bytes_after_the_message_are_left_alone() {
    let request = complete(parse(b"POST / HTTP/1.0\r\nContent-Length: 2\r\n\r\nhello"));
    assert_eq!(request.body, Some(&b"he"[..]));
    let request = complete(parse(b"GET / HTTP/1.0\r\n\r\nextra"));
    assert_eq!(request.body, None);
}

#[test]
fn body_of_length_zero() {
    let request = complete(parse(b"POST / HTTP/1.0\r\nContent-Length: 0\r\n\r\n"));
    assert_eq!(request.body, Some(&b""[..]));
}

#[test]
fn methods_are_classified() {
    assert_eq!(complete(parse(b"GET / HTTP/1.0\r\n\r\n")).method, Method::Get);
    assert_eq!(complete(parse(b"HEAD / HTTP/1.0\r\n\r\n")).method, Method::Head);
    assert_eq!(complete(parse(b"POST / HTTP/1.0\r\n\r\n")).method, Method::Post);
    assert_eq!(complete(parse(b"PUT / HTTP/1.0\r\n\r\n")).method, Method::Ext("PUT"));
    assert_eq!(complete(parse(b"get / HTTP/1.0\r\n\r\n")).method, Method::Ext("get"));
    assert_eq!(complete(parse(b" / HTTP/1.0\r\n\r\n")).method, Method::Ext(""));
    assert_eq!(
        complete(parse("D\u{c9}J\u{c0} / HTTP/1.0\r\n\r\n".as_bytes())).method,
        Method::Ext("D\u{c9}J\u{c0}")
    );
}

#[test]
fn method_token_must_be_utf8() {
    assert!(is_error(&parse_10(b"G\xffT / HTTP/1.0\r\n\r\n")));
    let cursor = &mut &b"\xc3 /"[..];
    assert!(is_error(&parse_method(cursor)));
    assert_eq!(*cursor, b"\xc3 /");
}

#[test]
fn method_without_space_is_an_error() {
    let cursor = &mut &b"GET"[..];
    assert!(is_error(&parse_method(cursor)));
    assert_eq!(*cursor, b"GET");
    assert!(is_error(&parse_10(b"GET")));
    assert!(is_error(&parse(b"GE")));
}

#[test]
fn method_leaves_the_space() {
    let cursor = &mut &b"HEAD /x"[..];
    assert!(matches!(parse_method(cursor), ParseResult::Complete(Method::Head)));
    assert_eq!(*cursor, b" /x");
}

#[test]
fn path_ends_at_blank() {
    for (input, path, rest) in [
        (&b"/a b"[..], "/a", &b" b"[..]),
        (&b"/a\tb"[..], "/a", &b"\tb"[..]),
        (&b"/a\rb"[..], "/a", &b"\rb"[..]),
        (&b"/a\nb"[..], "/a", &b"\nb"[..]),
        (&b" x"[..], "", &b" x"[..]),
    ] {
        let cursor = &mut &input[..];
        match parse_path(cursor) {
            ParseResult::Complete(p) => assert_eq!(p, path),
            _ => panic!("no path"),
        }
        assert_eq!(*cursor, rest);
    }
}

#[test]
fn path_without_end_is_an_error() {
    let cursor = &mut &b"/index.html"[..];
    assert!(is_error(&parse_path(cursor)));
    assert_eq!(*cursor, b"/index.html");
    assert!(is_error(&parse_10(b"GET /index.html")));
}

#[test]
fn path_must_be_utf8() {
    let cursor = &mut &b"/\xe9 "[..];
    assert!(is_error(&parse_path(cursor)));
    assert_eq!(*cursor, b"/\xe9 ");
    let cursor = &mut &"/\u{e9} ".as_bytes()[..];
    match parse_path(cursor) {
        ParseResult::Complete(p) => assert_eq!(p, "/\u{e9}"),
        _ => panic!("no path"),
    }
    assert_eq!(*cursor, b" ");
}

#[test]
fn path_ended_by_tab_is_not_followed_by_space() {
    assert!(is_error(&parse_10(b"GET /a\tHTTP/1.0\r\n\r\n")));
}

#[test]
fn version_must_be_exact() {
    assert!(is_error(&parse_10(b"GET / HTTP/1.1\r\n\r\n")));
    assert!(is_error(&parse_10(b"GET / http/1.0\r\n\r\n")));
    assert!(is_error(&parse_10(b"GET / HTTP/1.0\n\n")));
    assert!(is_error(&parse_10(b"GET /  HTTP/1.0\r\n\r\n")));
    let cursor = &mut &b"HTTP/1.0\r\n"[..];
    assert!(parse_http10_version(cursor).is_complete());
    assert_eq!(*cursor, b"\r\n");
    let cursor = &mut &b"HTTP/1."[..];
    assert!(is_error(&parse_http10_version(cursor)));
    assert_eq!(*cursor, b"HTTP/1.");
}

#[test]
fn fixed_literals() {
    let cursor = &mut &b"abcdef"[..];
    assert!(parse_fixed(cursor, b"abc").is_complete());
    assert_eq!(*cursor, b"def");
    assert!(is_error(&parse_fixed(cursor, b"dex")));
    assert_eq!(*cursor, b"def");
    assert!(parse_fixed(cursor, b"").is_complete());
    assert_eq!(*cursor, b"def");
    assert!(is_error(&parse_fixed(cursor, b"defg")));
    let cursor = &mut &b": x"[..];
    assert!(parse_colon(cursor).is_complete());
    assert_eq!(*cursor, b"x");
    let cursor = &mut &b":x"[..];
    assert!(is_error(&parse_colon(cursor)));
    let cursor = &mut &b"\r\nx"[..];
    assert!(parse_crlf(cursor).is_complete());
    assert_eq!(*cursor, b"x");
    let cursor = &mut &b"\n\r"[..];
    assert!(is_error(&parse_crlf(cursor)));
    let cursor = &mut &b"  "[..];
    assert!(skip_space(cursor).is_complete());
    assert_eq!(*cursor, b" ");
}

#[test]
fn token_takes_every_token_byte() {
    let all = b"abcdefghijklmnopqrstuvwxyzABCDEFGHIJKLMNOPQRSTUVWXYZ1234567890!#$%&'*+-.^_`|~";
    let mut input = all.to_vec();
    input.extend_from_slice(b": v");
    let cursor = &mut &input[..];
    match parse_token(cursor) {
        ParseResult::Complete(t) => assert_eq!(t.as_bytes(), &all[..]),
        _ => panic!("no token"),
    }
    assert_eq!(*cursor, b": v");
}

#[test]
fn token_stops_at_every_other_byte() {
    let all = b"abcdefghijklmnopqrstuvwxyzABCDEFGHIJKLMNOPQRSTUVWXYZ1234567890!#$%&'*+-.^_`|~";
    for b in 0u8..=255 {
        let input = [b'a', b, b'z'];
        let cursor = &mut &input[..];
        let token = match parse_token(cursor) {
            ParseResult::Complete(t) => t,
            _ => panic!("no token"),
        };
        if all.contains(&b) {
            assert_eq!(token.len(), 3);
            assert_eq!(cursor.len(), 0);
        } else {
            assert_eq!(token, "a");
            assert_eq!(*cursor, &input[1..]);
        }
    }
}

#[test]
fn token_may_be_empty() {
    let cursor = &mut &b": v\r\n"[..];
    match parse_token(cursor) {
        ParseResult::Complete(t) => assert_eq!(t, ""),
        _ => panic!("no token"),
    }
    assert_eq!(*cursor, b": v\r\n");
    let cursor = &mut &b": v\r\nrest"[..];
    match parse_header(cursor) {
        ParseResult::Complete((name, value)) => {
            assert_eq!(name, "");
            assert_eq!(value, Some(&b" v"[..]));
        }
        _ => panic!("no header"),
    }
    assert_eq!(*cursor, b"rest");
}

#[test]
fn header_without_value() {
    let cursor = &mut &b"Accept: \r\nrest"[..];
    match parse_header(cursor) {
        ParseResult::Complete((name, value)) => {
            assert_eq!(name, "Accept");
            assert_eq!(value, None);
        }
        _ => panic!("no header"),
    }
    assert_eq!(*cursor, b"rest");
}

#[test]
fn header_without_value_does_not_end_the_block() {
    let request = complete(parse(
        b"POST / HTTP/1.0\r\nAccept: \r\nContent-Length: 2\r\nHost: example\r\n\r\nhi",
    ));
    assert_eq!(request.headers.len(), 3);
    assert_eq!(request.headers.get("Accept"), Some(&None));
    assert_eq!(request.headers.get("Host"), Some(&Some(&b" example"[..])));
    assert_eq!(request.body, Some(&b"hi"[..]));
}

#[test]
fn header_errors() {
    for input in [
        &b"Name:value\r\n"[..],
        &b"Name value\r\n"[..],
        &b"Na me: value\r\n"[..],
        &b"Na(me: value\r\n"[..],
        &b"Name: value"[..],
        &b"Name: value\r"[..],
        &b"Name: value\rx\r\n"[..],
        &b"Name: value\n"[..],
        &b"Name: "[..],
        &b"Name: \r"[..],
        &b"Name"[..],
        &b""[..],
    ] {
        let cursor = &mut &input[..];
        assert!(is_error(&parse_header(cursor)), "{:?}", input);
        assert_eq!(*cursor, input);
    }
}

#[test]
fn header_value_is_kept_byte_for_byte() {
    let cursor = &mut &b"X-Raw:  \xff\x00\n\t \r\n"[..];
    match parse_header(cursor) {
        ParseResult::Complete((name, value)) => {
            assert_eq!(name, "X-Raw");
            assert_eq!(value, Some(&b"  \xff\x00\n\t "[..]));
        }
        _ => panic!("no header"),
    }
    assert_eq!(cursor.len(), 0);
}

#[test]
fn repeated_header_overwrites() {
    let request = complete(parse(b"GET / HTTP/1.0\r\nA: 1\r\nB: 2\r\nA: 3\r\n\r\n"));
    assert_eq!(request.headers.len(), 2);
    assert_eq!(request.headers.get("A"), Some(&Some(&b" 3"[..])));
    assert_eq!(request.headers.get("B"), Some(&Some(&b" 2"[..])));
    assert_eq!(request.headers.get("C"), None);
    assert_eq!(request.headers.get("a"), None);
}

#[test]
fn last_content_length_counts() {
    let request =
        complete(parse(b"POST / HTTP/1.0\r\nContent-Length: 5\r\nContent-Length: 1\r\n\r\nhello"));
    assert_eq!(request.body, Some(&b"h"[..]));
    assert_eq!(request.headers.get("Content-Length"), Some(&Some(&b" 1"[..])));
}

#[test]
fn content_length_must_declare_a_length() {
    for value in ["", "abc", "-1", " 5", "5 ", "5x", "+", "-", "0x10", "1_0", "5.0",
        "99999999999999999999999999999999999999999"]
    {
        let input = format!("POST / HTTP/1.0\r\nContent-Length: {}\r\n\r\nhello", value);
        assert!(is_error(&parse_10(input.as_bytes())), "{:?}", value);
        assert!(is_error(&parse(input.as_bytes())), "{:?}", value);
    }
    assert!(is_error(&parse_10(b"POST / HTTP/1.0\r\nContent-Length: \xff\r\n\r\nhello")));
}

#[test]
fn unfinished_head_is_an_error_not_partial() {
    assert!(is_error(&parse_10(b"POST / HTTP/1.0\r\nContent-Length: x\r\n")));
    assert!(is_error(&parse_10(b"POST / HTTP/1.0\r\nContent-Length: 5")));
    assert!(is_error(&parse_10(b"POST / HTTP/1.0\r\nContent-Length: 5\r\n")));
}

#[test]
fn content_length_name_is_exact() {
    let request = complete(parse(b"POST / HTTP/1.0\r\ncontent-length: 5\r\n\r\nhello"));
    assert_eq!(request.body, None);
    let request = complete(parse(b"POST / HTTP/1.0\r\nContent-Length: +5\r\n\r\nhello"));
    assert_eq!(request.body, Some(&b"hello"[..]));
    let request = complete(parse(b"POST / HTTP/1.0\r\nContent-Length: 005\r\n\r\nhello"));
    assert_eq!(request.body, Some(&b"hello"[..]));
}

#[test]
fn header_value_begins_with_the_space_after_the_colon() {
    let cursor = &mut &b"Header: Authorization: Bearer token\r\nNext: x\r\n"[..];
    match parse_header(cursor) {
        ParseResult::Complete((name, value)) => {
            assert_eq!(name, "Header");
            assert_eq!(value, Some(&b" Authorization: Bearer token"[..]));
        }
        _ => panic!("no header"),
    }
    assert_eq!(*cursor, b"Next: x\r\n");
}

#[test]
fn declared_lengths() {
    assert_eq!(content_length(Some(b" 5")), Some(5));
    assert_eq!(content_length(Some(b" +12")), Some(12));
    assert_eq!(content_length(Some(b" 0")), Some(0));
    assert_eq!(content_length(Some(b"5")), None);
    assert_eq!(content_length(Some(b"  5")), None);
    assert_eq!(content_length(Some(b" ")), None);
    assert_eq!(content_length(Some(b"")), None);
    assert_eq!(content_length(Some(b" 5 ")), None);
    assert_eq!(content_length(Some(b" five")), None);
    assert_eq!(content_length(None), None);
}

#[test]
fn decimal_values() {
    assert_eq!(parse_decimal(b"0"), Some(0));
    assert_eq!(parse_decimal(b"7"), Some(7));
    assert_eq!(parse_decimal(b"42"), Some(42));
    assert_eq!(parse_decimal(b"+42"), Some(42));
    assert_eq!(parse_decimal(b"0042"), Some(42));
    assert_eq!(parse_decimal(b"1234567890"), Some(1234567890));
    assert_eq!(parse_decimal(usize::MAX.to_string().as_bytes()), Some(usize::MAX));
    assert_eq!(parse_decimal(format!("{}0", usize::MAX).as_bytes()), None);
    assert_eq!(parse_decimal((usize::MAX as u128 + 1).to_string().as_bytes()), None);
    assert_eq!(parse_decimal(b""), None);
    assert_eq!(parse_decimal(b"+"), None);
    assert_eq!(parse_decimal(b"++1"), None);
    assert_eq!(parse_decimal(b"-1"), None);
    assert_eq!(parse_decimal(b"1+"), None);
    assert_eq!(parse_decimal(b"12a"), None);
    assert_eq!(parse_decimal(b"/"), None);
    assert_eq!(parse_decimal(b":"), None);
}

#[test]
fn decimal_agrees_with_the_standard_parser() {
    for text in ["0", "9", "10", "+0", "+", "", "-0", "00", "18446744073709551615",
        "18446744073709551616", "4294967295", "4294967296", " 1", "1 ", "١"]
    {
        assert_eq!(parse_decimal(text.as_bytes()), text.parse::<usize>().ok(), "{:?}", text);
    }
}

#[test]
fn body_rule() {
    let cursor = &mut &b"hello"[..];
    match parse_body(cursor, 2) {
        ParseResult::Complete(body) => assert_eq!(body, b"he"),
        _ => panic!("no body"),
    }
    assert_eq!(*cursor, b"llo");
    assert!(parse_body(cursor, 4).is_partial());
    assert_eq!(*cursor, b"llo");
    match parse_body(cursor, 3) {
        ParseResult::Complete(body) => assert_eq!(body, b"llo"),
        _ => panic!("no body"),
    }
    assert_eq!(cursor.len(), 0);
    assert!(parse_body(cursor, 0).is_complete());
}

#[test]
fn head_only_is_taken_for_a_simple_request() {
    let request = complete(parse(b"GET / HTTP/1.0\r\n"));
    assert_eq!(request.version, Version::HTTP09);
    assert_eq!(request.path, "/ HTTP/1.0");
}

#[test]
fn parse_is_deterministic() {
    let inputs: [&[u8]; 6] = [
        b"GET /\r\n",
        b"GET /",
        b"POST /\r\n",
        b"POST /f HTTP/1.0\r\nA: b\r\nContent-Length: 3\r\n\r\nabc",
        b"POST /f HTTP/1.0\r\nContent-Length: 3\r\n\r\na",
        b"",
    ];
    for input in inputs {
        let first = parse(input);
        let second = parse(input);
        match (first, second) {
            (ParseResult::Complete(a), ParseResult::Complete(b)) => {
                assert_eq!(a.path, b.path);
                assert_eq!(a.method, b.method);
                assert_eq!(a.version, b.version);
                assert_eq!(a.body, b.body);
                assert_eq!(a.headers.len(), b.headers.len());
                for i in 0..a.headers.len() {
                    let name = *a.headers.name_at(i);
                    assert_eq!(b.headers.get(name), Some(a.headers.value_at(i)));
                }
            }
            (ParseResult::Partial, ParseResult::Partial) => {}
            (ParseResult::Error, ParseResult::Error) => {}
            _ => panic!("outcomes differ"),
        }
    }
}

fn never_error_once_partial(message: &[u8]) {
    assert!(parse(message).is_complete());
    let mut waiting = false;
    for end in 0..=message.len() {
        let outcome = parse(&message[..end]);
        if waiting {
            assert!(!is_error(&outcome), "error at {}", end);
        }
        if outcome.is_partial() {
            waiting = true;
        }
    }
    assert!(waiting);
}

#[test]
fn completion_is_monotonic() {
    never_error_once_partial(b"POST /upload HTTP/1.0\r\nContent-Length: 5\r\n\r\nhello");
    never_error_once_partial(b"GET /a/b HTTP/1.0\r\nHost: x\r\nContent-Length: 3\r\n\r\nabc");
    never_error_once_partial(b"GET /index.html\r\n");
    never_error_once_partial("GET /caf\u{e9} HTTP/1.0\r\nContent-Length: 1\r\n\r\n!".as_bytes());
}

#[test]
fn from_result() {
    let ok: Result<u8, ()> = Ok(3);
    assert!(matches!(ParseResult::from(ok), ParseResult::Complete(3)));
    let err: Result<u8, &str> = Err("no");
    assert!(matches!(ParseResult::from(err), ParseResult::Error));
    let into: ParseResult<u8> = Ok::<u8, ()>(4).into();
    assert!(into.is_complete());
    assert!(!into.is_partial());
    let partial: ParseResult<u8> = ParseResult::Partial;
    assert!(partial.is_partial());
    assert!(!partial.is_complete());
    let error: ParseResult<u8> = ParseResult::Error;
    assert!(!error.is_partial());
    assert!(!error.is_complete());
}

#[test]
fn failures_keep_their_kind() {
    let partial: ParseResult<u8> = ParseResult::Partial;
    let as_text: ParseResult<&str> = partial.failure();
    assert!(as_text.is_partial());
    let error: ParseResult<u8> = ParseResult::Error;
    let as_text: ParseResult<&str> = error.failure();
    assert!(is_error(&as_text));
}

fn written(method: &str, path: &str, lines: &[(&str, &str)], body: &[u8]) -> Vec<u8> {
    let mut bytes = Vec::new();
    bytes.extend_from_slice(method.as_bytes());
    bytes.extend_from_slice(b" ");
    bytes.extend_from_slice(path.as_bytes());
    bytes.extend_from_slice(b" HTTP/1.0\r\n");
    for (name, text) in lines {
        bytes.extend_from_slice(name.as_bytes());
        bytes.extend_from_slice(b": ");
        bytes.extend_from_slice(text.as_bytes());
        bytes.extend_from_slice(b"\r\n");
    }
    bytes.extend_from_slice(b"\r\n");
    bytes.extend_from_slice(body);
    bytes
}

#[test]
fn written_messages_are_read() {
    let lines = [
        ("Host", "example.org"),
        ("Accept", ""),
        ("Content-Length", "0"),
        ("X-Note", "a: b\tc\n d"),
        ("", "nameless"),
        ("Content-Length", "+4"),
        ("Host", "example.net"),
    ];
    let bytes = written("REPORT", "/caf\u{e9}?q=1", &lines, b"\r\n\r\n");
    let request = complete(parse(&bytes));
    assert_eq!(request.method, Method::Ext("REPORT"));
    assert_eq!(request.path, "/caf\u{e9}?q=1");
    assert_eq!(request.version, Version::HTTP10);
    assert_eq!(request.body, Some(&b"\r\n\r\n"[..]));
    assert_eq!(request.headers.len(), 5);
    assert_eq!(request.headers.get("Host"), Some(&Some(&b" example.net"[..])));
    assert_eq!(request.headers.get("Accept"), Some(&None));
    assert_eq!(request.headers.get("Content-Length"), Some(&Some(&b" +4"[..])));
    assert_eq!(request.headers.get("X-Note"), Some(&Some(&b" a: b\tc\n d"[..])));
    assert_eq!(request.headers.get(""), Some(&Some(&b" nameless"[..])));

    let bytes = written("GET", "/", &[], b"");
    let request = complete(parse(&bytes));
    assert_eq!(request.method, Method::Get);
    assert_eq!(request.path, "/");
    assert_eq!(request.body, None);
    assert!(request.headers.is_empty());

    let request = complete(parse(b"GET /a\rb c\r\n"));
    assert_eq!(request.version, Version::HTTP09);
    assert_eq!(request.path, "/a\rb c");
}
