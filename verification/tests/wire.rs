use httpwire::data::{Response, Status, Version};
use httpwire::wire::{put_bytes, put_decimal, put_header_line};

fn printed(response: &Response) -> Vec<u8> {
    let mut out = Vec::new();
    response.print_http(&mut out);
    out
}

#[test]
fn status_lines() {
    assert_eq!(printed(&Response::new(Status::OK)), b"HTTP/1.0 200 Ok\r\n\r\n");
    assert_eq!(printed(&Response::new(Status::BadRequest)), b"HTTP/1.0 400 Bad Request\r\n\r\n");
    assert_eq!(printed(&Response::new(Status::NotFound)), b"HTTP/1.0 404 Not Found\r\n\r\n");
    assert_eq!(
        printed(&Response::new(Status::InternalServerError)),
        b"HTTP/1.0 500 Internal Server Error\r\n\r\n"
    );
}

#[test]
fn body_implies_content_length() {
    let mut response = Response::new(Status::OK);
    response.body = Some(b"hello".to_vec());
    assert_eq!(printed(&response), b"HTTP/1.0 200 Ok\r\nContent-Length: 5\r\n\r\nhello");
    response.body = Some(Vec::new());
    assert_eq!(printed(&response), b"HTTP/1.0 200 Ok\r\nContent-Length: 0\r\n\r\n");
    response.body = Some(vec![b'x'; 1234]);
    let mut expected = b"HTTP/1.0 200 Ok\r\nContent-Length: 1234\r\n\r\n".to_vec();
    expected.extend_from_slice(&[b'x'; 1234]);
    assert_eq!(printed(&response), expected);
}

#[test]
fn headers_are_written_in_order() {
    let mut response = Response::new(Status::NotFound);
    response.headers.insert("Server".to_string(), Some(b"tiny".to_vec()));
    response.headers.insert("X-Empty".to_string(), None);
    response.headers.insert("Content-Type".to_string(), Some(b"text/plain".to_vec()));
    response.headers.insert("Server".to_string(), Some(b"small".to_vec()));
    response.body = Some(b"gone".to_vec());
    assert_eq!(
        printed(&response),
        &b"HTTP/1.0 404 Not Found\r\nServer: small\r\nX-Empty: \r\nContent-Type: text/plain\r\nContent-Length: 4\r\n\r\ngone"[..]
    );
}

#[test]
fn given_content_length_is_kept() {
    let mut response = Response::new(Status::OK);
    response.headers.insert("Content-Length".to_string(), Some(b"99".to_vec()));
    response.body = Some(b"abc".to_vec());
    assert_eq!(printed(&response), b"HTTP/1.0 200 Ok\r\nContent-Length: 99\r\n\r\nabc");
    let mut response = Response::new(Status::OK);
    response.headers.insert("content-length".to_string(), Some(b"99".to_vec()));
    response.body = Some(b"abc".to_vec());
    assert_eq!(
        printed(&response),
        &b"HTTP/1.0 200 Ok\r\ncontent-length: 99\r\nContent-Length: 3\r\n\r\nabc"[..]
    );
}

#[test]
fn headers_without_body() {
    let mut response = Response::new(Status::InternalServerError);
    response.headers.insert("Retry-After".to_string(), Some(b"120".to_vec()));
    assert_eq!(
        printed(&response),
        &b"HTTP/1.0 500 Internal Server Error\r\nRetry-After: 120\r\n\r\n"[..]
    );
}

#[test]
fn header_names_are_written_as_utf8() {
    let mut response = Response::new(Status::OK);
    response.headers.insert("X-\u{e9}".to_string(), Some(vec![0xff, 0x00]));
    assert_eq!(printed(&response), b"HTTP/1.0 200 Ok\r\nX-\xc3\xa9: \xff\x00\r\n\r\n");
}

#[test]
fn simple_response_is_the_body() {
    let mut response = Response::new(Status::NotFound);
    response.version = Version::HTTP09;
    assert_eq!(printed(&response), b"");
    response.headers.insert("Server".to_string(), Some(b"tiny".to_vec()));
    response.body = Some(b"<html></html>".to_vec());
    assert_eq!(printed(&response), b"<html></html>");
    let mut out = Vec::new();
    response.print_http09(&mut out);
    assert_eq!(out, b"<html></html>");
}

#[test]
fn print_appends() {
    let mut response = Response::new(Status::OK);
    response.body = Some(b"b".to_vec());
    let mut out = b"before".to_vec();
    response.print_http10(&mut out);
    assert_eq!(out, b"beforeHTTP/1.0 200 Ok\r\nContent-Length: 1\r\n\r\nb");
    response.version = Version::HTTP09;
    response.print_http10(&mut out);
    assert_eq!(
        out,
        &b"beforeHTTP/1.0 200 Ok\r\nContent-Length: 1\r\n\r\nbHTTP/1.0 200 Ok\r\nContent-Length: 1\r\n\r\nb"[..]
    );
}

#[test]
fn decimal_numerals() {
    for n in [0usize, 1, 9, 10, 11, 99, 100, 101, 12345, 1000000, usize::MAX] {
        let mut out = Vec::new();
        put_decimal(&mut out, n);
        assert_eq!(out, n.to_string().into_bytes());
    }
    let mut out = b"n=".to_vec();
    put_decimal(&mut out, 42);
    assert_eq!(out, b"n=42");
}

#[test]
fn header_lines() {
    let mut out = Vec::new();
    put_header_line(&mut out, "Name", Some(b"value"));
    put_header_line(&mut out, "None", None);
    put_header_line(&mut out, "", Some(b""));
    assert_eq!(out, b"Name: value\r\nNone: \r\n: \r\n");
    put_bytes(&mut out, b"tail");
    put_bytes(&mut out, b"");
    assert_eq!(out, b"Name: value\r\nNone: \r\n: \r\ntail");
}
