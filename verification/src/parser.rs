//! The incremental request parser.
//!
//! The parser keeps no state: after each chunk the caller hands it all the
//! bytes received so far. Each rule works on a cursor, a slice that it
//! shortens from the front by what it has read.

use vstd::prelude::*;
use crate::data::{Method, Request, Version};
use crate::grammar::{
    Stop, advances, all_digits, body_rule, colon_space, crlf_index, decimal_value,
    declared_length, digits_value, fixed_rule, get_token, head_token, header_block, header_rule,
    is_token_byte, lemma_crlf_is, lemma_digits_value_grows, lemma_header_rule_consumes,
    lemma_scan_from, lemma_scan_is, method_rule, path_rule, post_token, request, request_09,
    request_10, request_line, rest_of, scan, simple_request_tag, space, starts_with, stops,
    token_rule, unsigned, value_of, version_tag,
};
use crate::headers::{Field, Headers};
use crate::text::{
    COLON, CR, LF, PLUS, SP, TAB, bytes_eq, crlf, is_ascii_bytes, lemma_ascii_is_utf8, opt_octets,
    str_eq,
};

verus! {

broadcast use vstd::slice::group_slice_axioms;

/// The outcome of parsing: a value, a call for more bytes, or a refusal.
pub enum ParseResult<T> {
    /// The bytes held a whole message, or a whole part of one.
    Complete(T),
    /// The bytes are the beginning of a message; more are needed.
    Partial,
    /// The bytes are not the beginning of any message.
    Error,
}

impl<T: View> View for ParseResult<T> {
    type V = ParseResult<T::V>;

    open spec fn view(&self) -> ParseResult<T::V> {
        match *self {
            ParseResult::Complete(t) => ParseResult::Complete(t@),
            ParseResult::Partial => ParseResult::Partial,
            ParseResult::Error => ParseResult::Error,
        }
    }
}

impl<T> ParseResult<T> {
    /// True for `Complete`.
    pub fn is_complete(&self) -> (b: bool)
        ensures
            b == (self is Complete),
    {
        match *self {
            ParseResult::Complete(_) => true,
            _ => false,
        }
    }

    /// True for `Partial`.
    pub fn is_partial(&self) -> (b: bool)
        ensures
            b == (self is Partial),
    {
        match *self {
            ParseResult::Partial => true,
            _ => false,
        }
    }

    /// The failure of one step as the outcome of the steps that it is part
    /// of: `Partial` stays `Partial` and `Error` stays `Error`.
    pub fn failure<U>(self) -> (r: ParseResult<U>)
        requires
            !(self is Complete),
        ensures
            r is Partial <==> self is Partial,
            r is Error <==> self is Error,
    {
        match self {
            ParseResult::Partial => ParseResult::Partial,
            _ => ParseResult::Error,
        }
    }
}

impl<T, E> From<Result<T, E>> for ParseResult<T> {
    /// `Ok` becomes `Complete`; an error, whatever it says, becomes `Error`.
    fn from(r: Result<T, E>) -> (out: Self) {
        match r {
            Ok(t) => ParseResult::Complete(t),
            Err(_) => ParseResult::Error,
        }
    }
}

impl<T, E> vstd::std_specs::convert::FromSpecImpl<Result<T, E>> for ParseResult<T> {
    open spec fn obeys_from_spec() -> bool {
        true
    }

    open spec fn from_spec(r: Result<T, E>) -> Self {
        match r {
            Ok(t) => ParseResult::Complete(t),
            Err(_) => ParseResult::Error,
        }
    }
}

/// True if `b` is a token byte.
pub fn is_token_char(b: u8) -> (r: bool)
    ensures
        r == is_token_byte(b),
{
    (97 <= b && b <= 122) || (65 <= b && b <= 90) || (48 <= b && b <= 57) || b == 33 || (35 <= b
        && b <= 39) || b == 42 || b == 43 || b == 45 || b == 46 || (94 <= b && b <= 96) || b == 124
        || b == 126
}

/// True if `b` ends a scan for `stop`.
pub fn ends_scan(stop: Stop, b: u8) -> (r: bool)
    ensures
        r == stops(stop, b),
{
    match stop {
        Stop::Space => b == SP,
        Stop::Blank => b == SP || b == TAB || b == CR || b == LF,
        Stop::Return => b == CR,
        Stop::NonToken => !is_token_char(b),
    }
}

/// The index of the first byte of `buf` that ends the scan, or `buf.len()` if none does.
pub fn scan_until(buf: &[u8], stop: Stop) -> (p: usize)
    ensures
        p == scan(buf@, stop),
        p <= buf@.len(),
{
    let n: usize = buf.len();
    let mut i: usize = 0;
    while i < n && !ends_scan(stop, buf[i])
        invariant
            i <= n,
            n == buf@.len(),
            forall|j: int| 0 <= j < i ==> !stops(stop, #[trigger] buf@[j]),
        decreases n - i,
    {
        i += 1;
    }
    proof {
        lemma_scan_is(buf@, stop, 0, i as int);
    }
    i
}

/// The index of the first CRLF in `buf`, or `buf.len()` if there is none.
pub fn find_crlf(buf: &[u8]) -> (p: usize)
    ensures
        p == crlf_index(buf@),
        p <= buf@.len(),
{
    let n: usize = buf.len();
    let mut i: usize = 0;
    while i < n
        invariant
            i <= n,
            n == buf@.len(),
            forall|j: int| 0 <= j < i && j + 1 < n ==> !(#[trigger] buf@[j] == CR && buf@[j + 1] == LF),
        decreases n - i,
    {
        if n - i >= 2 && buf[i] == CR && buf[i + 1] == LF {
            proof {
                lemma_crlf_is(buf@, 0, i as int);
            }
            return i;
        }
        i += 1;
    }
    proof {
        lemma_crlf_is(buf@, 0, n as int);
    }
    n
}

/// True if `buf` begins with `lit`.
pub fn begins_with(buf: &[u8], lit: &[u8]) -> (r: bool)
    ensures
        r == starts_with(buf@, lit@),
{
    let n: usize = lit.len();
    if buf.len() < n {
        return false;
    }
    let mut i: usize = 0;
    while i < n
        invariant
            i <= n,
            n == lit@.len(),
            n <= buf@.len(),
            forall|j: int| 0 <= j < i ==> buf@[j] == lit@[j],
        decreases n - i,
    {
        if buf[i] != lit[i] {
            return false;
        }
        i += 1;
    }
    true
}

/// The number that `digits` declares, as `decimal_value` defines it.
pub fn parse_decimal(digits: &[u8]) -> (r: Option<usize>)
    ensures
        r == decimal_value(digits@),
{
    let n: usize = digits.len();
    let start: usize = if n > 0 && digits[0] == PLUS { 1 } else { 0 };
    let ghost d = unsigned(digits@);
    assert(d =~= digits@.skip(start as int));
    if start == n {
        return None;
    }
    let mut value: usize = 0;
    let mut i: usize = start;
    assert(d.take(0) =~= Seq::<u8>::empty());
    while i < n
        invariant
            start <= i <= n,
            n == digits@.len(),
            d == digits@.skip(start as int),
            d == unsigned(digits@),
            all_digits(d.take(i - start)),
            value == digits_value(d.take(i - start)),
        decreases n - i,
    {
        let b: u8 = digits[i];
        let ghost k = i - start;
        assert(d[k] == b);
        assert(d.take(k + 1).drop_last() =~= d.take(k));
        assert(d.take(k + 1).last() == b);
        if b < 48 || b > 57 {
            assert(!all_digits(d)) by {
                assert(!(48 <= d[k] <= 57));
            }
            return None;
        }
        assert(digits_value(d.take(k + 1)) == 10 * value + (b - 48));
        let digit: usize = (b - 48) as usize;
        let next = match value.checked_mul(10) {
            Some(tens) => tens.checked_add(digit),
            None => None,
        };
        match next {
            Some(v) => {
                value = v;
            },
            None => {
                proof {
                    lemma_digits_value_grows(d, k + 1);
                    assert(digits_value(d) > usize::MAX);
                }
                return None;
            },
        }
        assert(all_digits(d.take(k + 1))) by {
            assert forall|j: int| 0 <= j < k + 1 implies 48 <= #[trigger] d.take(k + 1)[j] <= 57 by {
                if j < k {
                    assert(d.take(k)[j] == d.take(k + 1)[j]);
                }
            }
        }
        i += 1;
    }
    assert(d.take(n - start) =~= d);
    Some(value)
}

/// The literal `fixed`: `Complete` and past it if the cursor begins with it, `Error` otherwise.
pub fn parse_fixed<'a>(buf: &mut &'a [u8], fixed: &[u8]) -> (r: ParseResult<()>)
    ensures
        advances(fixed_rule(old(buf)@, fixed@), r@, old(buf)@, final(buf)@),
{
    let b: &'a [u8] = *buf;
    if begins_with(b, fixed) {
        *buf = &b[fixed.len()..b.len()];
        ParseResult::Complete(())
    } else {
        ParseResult::Error
    }
}

/// One space.
pub fn skip_space<'a>(buf: &mut &'a [u8]) -> (r: ParseResult<()>)
    ensures
        advances(fixed_rule(old(buf)@, space()), r@, old(buf)@, final(buf)@),
{
    let lit: [u8; 1] = [SP];
    assert(lit@ =~= space());
    parse_fixed(buf, lit.as_slice())
}

/// The literal `HTTP/1.0`.
pub fn parse_http10_version<'a>(buf: &mut &'a [u8]) -> (r: ParseResult<()>)
    ensures
        advances(fixed_rule(old(buf)@, version_tag()), r@, old(buf)@, final(buf)@),
{
    let lit: [u8; 8] = [72, 84, 84, 80, 47, 49, 46, 48];
    assert(lit@ =~= version_tag());
    parse_fixed(buf, lit.as_slice())
}

/// CRLF.
pub fn parse_crlf<'a>(buf: &mut &'a [u8]) -> (r: ParseResult<()>)
    ensures
        advances(fixed_rule(old(buf)@, crlf()), r@, old(buf)@, final(buf)@),
{
    let lit: [u8; 2] = [CR, LF];
    assert(lit@ =~= crlf());
    parse_fixed(buf, lit.as_slice())
}

/// A colon and a space.
pub fn parse_colon<'a>(buf: &mut &'a [u8]) -> (r: ParseResult<()>)
    ensures
        advances(fixed_rule(old(buf)@, colon_space()), r@, old(buf)@, final(buf)@),
{
    let lit: [u8; 2] = [COLON, SP];
    assert(lit@ =~= colon_space());
    parse_fixed(buf, lit.as_slice())
}

/// The method, up to the first space.
pub fn parse_method<'a>(buf: &mut &'a [u8]) -> (r: ParseResult<Method<'a>>)
    ensures
        advances(method_rule(old(buf)@), r@, old(buf)@, final(buf)@),
{
    let b: &'a [u8] = *buf;
    let pos = scan_until(b, Stop::Space);
    if pos >= b.len() {
        return ParseResult::Error;
    }
    let token: &'a [u8] = &b[0..pos];
    let get: [u8; 3] = [71, 69, 84];
    let head: [u8; 4] = [72, 69, 65, 68];
    let post: [u8; 4] = [80, 79, 83, 84];
    assert(get@ =~= get_token() && head@ =~= head_token() && post@ =~= post_token());
    let method = if bytes_eq(token, get.as_slice()) {
        Method::Get
    } else if bytes_eq(token, head.as_slice()) {
        Method::Head
    } else if bytes_eq(token, post.as_slice()) {
        Method::Post
    } else {
        match core::str::from_utf8(token) {
            Ok(other) => Method::Ext(other),
            Err(_) => {
                return ParseResult::Error;
            },
        }
    };
    *buf = &b[pos..b.len()];
    ParseResult::Complete(method)
}

/// The path, up to the first space, tab, carriage return or line feed.
pub fn parse_path<'a>(buf: &mut &'a [u8]) -> (r: ParseResult<&'a str>)
    ensures
        advances(path_rule(old(buf)@), r@, old(buf)@, final(buf)@),
{
    let b: &'a [u8] = *buf;
    let pos = scan_until(b, Stop::Blank);
    if pos >= b.len() {
        return ParseResult::Error;
    }
    let r = ParseResult::from(core::str::from_utf8(&b[0..pos]));
    if r.is_complete() {
        *buf = &b[pos..b.len()];
    }
    r
}

/// A token: the longest run of token bytes at the cursor.
pub fn parse_token<'a>(buf: &mut &'a [u8]) -> (r: ParseResult<&'a str>)
    ensures
        advances(token_rule(old(buf)@), r@, old(buf)@, final(buf)@),
        r is Complete,
{
    let b: &'a [u8] = *buf;
    let pos = scan_until(b, Stop::NonToken);
    let token: &'a [u8] = &b[0..pos];
    proof {
        lemma_scan_from(b@, Stop::NonToken, 0);
        assert(is_ascii_bytes(token@)) by {
            assert forall|i: int| 0 <= i < token@.len() implies token@[i] < 128 by {
                assert(!stops(Stop::NonToken, b@[i]));
            }
        }
        lemma_ascii_is_utf8(token@);
    }
    match core::str::from_utf8(token) {
        Ok(name) => {
            *buf = &b[pos..b.len()];
            ParseResult::Complete(name)
        },
        Err(_) => ParseResult::Error,
    }
}

/// A header as the contracts see it.
pub open spec fn field_of(header: (&str, Option<&[u8]>)) -> Field {
    (header.0@, opt_octets(header.1))
}

/// The outcome of `parse_header` as the contracts see it.
pub open spec fn header_view(r: ParseResult<(&str, Option<&[u8]>)>) -> ParseResult<Field> {
    match r {
        ParseResult::Complete(header) => ParseResult::Complete(field_of(header)),
        ParseResult::Partial => ParseResult::Partial,
        ParseResult::Error => ParseResult::Error,
    }
}

/// One header line: the name and, unless CRLF follows the colon and space
/// at once, the value, which begins with that space.
pub fn parse_header<'a>(buf: &mut &'a [u8]) -> (r: ParseResult<(&'a str, Option<&'a [u8]>)>)
    ensures
        advances(header_rule(old(buf)@), header_view(r), old(buf)@, final(buf)@),
{
    let mut cur: &'a [u8] = *buf;
    let name = match parse_token(&mut cur) {
        ParseResult::Complete(name) => name,
        failed => {
            return failed.failure();
        },
    };
    let after_name: &'a [u8] = cur;
    match parse_colon(&mut cur) {
        ParseResult::Complete(_) => {},
        failed => {
            return failed.failure();
        },
    }
    assert(cur@ =~= after_name@.skip(1).skip(1));
    if parse_crlf(&mut cur).is_complete() {
        assert(cur@ =~= after_name@.skip(1).skip(3));
        *buf = cur;
        return ParseResult::Complete((name, None));
    }
    let v: &'a [u8] = &after_name[1..after_name.len()];
    let pos = scan_until(v, Stop::Return);
    if v.len() - pos < 2 || v[pos + 1] != LF {
        return ParseResult::Error;
    }
    *buf = &v[pos + 2..v.len()];
    ParseResult::Complete((name, Some(&v[0..pos])))
}

/// The length that the value of a `Content-Length` header declares, if it declares one.
pub fn content_length(value: Option<&[u8]>) -> (r: Option<usize>)
    ensures
        r == declared_length(opt_octets(value)),
{
    match value {
        Some(v) => {
            if v.len() > 0 && v[0] == SP {
                parse_decimal(&v[1..v.len()])
            } else {
                None
            }
        },
        None => None,
    }
}

/// A body of `size` bytes.
pub fn parse_body<'a>(buf: &mut &'a [u8], size: usize) -> (r: ParseResult<&'a [u8]>)
    ensures
        advances(body_rule(old(buf)@, size), r@, old(buf)@, final(buf)@),
{
    let b: &'a [u8] = *buf;
    if size <= b.len() {
        *buf = &b[size..b.len()];
        ParseResult::Complete(&b[0..size])
    } else {
        ParseResult::Partial
    }
}


/// An HTTP/0.9 request: `GET`, a space, and the path up to the first CRLF.
pub fn parse_09<'a>(buf: &'a [u8]) -> (r: ParseResult<Request<'a>>)
    ensures
        r@ == request_09(buf@),
{
    let tag: [u8; 4] = [71, 69, 84, SP];
    assert(tag@ =~= simple_request_tag());
    if !begins_with(buf, tag.as_slice()) {
        return ParseResult::Error;
    }
    let rest: &'a [u8] = &buf[4..buf.len()];
    let end = find_crlf(rest);
    if end >= rest.len() {
        return ParseResult::Partial;
    }
    match core::str::from_utf8(&rest[0..end]) {
        Ok(path) => {
            let mut request = Request::new(Method::Get, path);
            request.version = Version::HTTP09;
            ParseResult::Complete(request)
        },
        Err(_) => ParseResult::Error,
    }
}

/// An HTTP/1.0 request: request line, header block, blank line, and the body
/// if a `Content-Length` declared one.
pub fn parse_10<'a>(buf: &'a [u8]) -> (r: ParseResult<Request<'a>>)
    ensures
        r@ == request_10(buf@),
{
    let mut cur: &'a [u8] = buf;
    let method = match parse_method(&mut cur) {
        ParseResult::Complete(method) => method,
        failed => {
            return failed.failure();
        },
    };
    match skip_space(&mut cur) {
        ParseResult::Complete(_) => {},
        failed => {
            return failed.failure();
        },
    }
    let path = match parse_path(&mut cur) {
        ParseResult::Complete(path) => path,
        failed => {
            return failed.failure();
        },
    };
    match skip_space(&mut cur) {
        ParseResult::Complete(_) => {},
        failed => {
            return failed.failure();
        },
    }
    match parse_http10_version(&mut cur) {
        ParseResult::Complete(_) => {},
        failed => {
            return failed.failure();
        },
    }
    match parse_crlf(&mut cur) {
        ParseResult::Complete(_) => {},
        failed => {
            return failed.failure();
        },
    }
    let ghost start = cur@;
    let mut headers: Headers<&'a str, &'a [u8]> = Headers::new();
    let mut length: Option<usize> = None;
    let blank: [u8; 2] = [CR, LF];
    assert(blank@ =~= crlf());
    while !begins_with(cur, blank.as_slice())
        invariant
            blank@ == crlf(),
            request_line(buf@) is Complete,
            rest_of(request_line(buf@)) == start,
            value_of(request_line(buf@)) == (method@, path@),
            header_block(cur@, headers@, length) == header_block(start, Map::empty(), None),
        decreases cur@.len(),
    {
        let ghost before = cur@;
        proof {
            lemma_header_rule_consumes(before);
        }
        let (name, value) = match parse_header(&mut cur) {
            ParseResult::Complete(header) => header,
            failed => {
                return failed.failure();
            },
        };
        if str_eq(name, "Content-Length") {
            match content_length(value) {
                Some(size) => {
                    length = Some(size);
                },
                None => {
                    return ParseResult::Error;
                },
            }
        }
        headers.insert(name, value);
    }
    match parse_crlf(&mut cur) {
        ParseResult::Complete(_) => {},
        failed => {
            return failed.failure();
        },
    }
    let body = match length {
        Some(size) => match parse_body(&mut cur, size) {
            ParseResult::Complete(body) => Some(body),
            failed => {
                return failed.failure();
            },
        },
        None => None,
    };
    ParseResult::Complete(Request { path, method, version: Version::HTTP10, headers, body })
}

/// Parses a request from all the bytes received so far: as HTTP/1.0, and
/// only where that grammar refuses the bytes, as HTTP/0.9. A `Partial` of
/// the HTTP/1.0 grammar stands: the bytes are not tried as HTTP/0.9.
pub fn parse<'a>(buf: &'a [u8]) -> (r: ParseResult<Request<'a>>)
    ensures
        r@ == request(buf@),
{
    match parse_10(buf) {
        ParseResult::Complete(request) => ParseResult::Complete(request),
        ParseResult::Partial => ParseResult::Partial,
        ParseResult::Error => parse_09(buf),
    }
}

} // verus!
