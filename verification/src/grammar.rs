//! The request grammar, as mathematical functions on byte sequences.
//!
//! A rule takes the bytes that are left and gives an outcome. `Complete`
//! carries the value that was read and the bytes that follow it; `Partial`
//! says that more bytes are needed; `Error` says that the rule refuses the
//! bytes. Only the body of an HTTP/1.0 request and the line end of an
//! HTTP/0.9 request are waited for: every other rule refuses bytes that end
//! before the rule is through, even where more bytes could make them good.

use vstd::prelude::*;
use vstd::utf8::{decode_utf8, valid_utf8};
use crate::data::{MethodView, RequestView, Version};
use crate::headers::Field;
use crate::parser::ParseResult;
use crate::text::{COLON, CR, LF, PLUS, SP, TAB, content_length_name, crlf};

verus! {

/// The outcome of a rule: a value and the bytes that are left.
pub type Rule<V> = ParseResult<(V, Seq<u8>)>;

/// `s` begins with `lit`.
pub open spec fn starts_with(s: Seq<u8>, lit: Seq<u8>) -> bool {
    lit.len() <= s.len() && forall|i: int| 0 <= i < lit.len() ==> s[i] == lit[i]
}

/// A single space.
pub open spec fn space() -> Seq<u8> {
    seq![SP]
}

/// A colon and a space, which part a header's name from its value.
pub open spec fn colon_space() -> Seq<u8> {
    seq![COLON, SP]
}

/// The bytes of `GET`.
pub open spec fn get_token() -> Seq<u8> {
    seq![71u8, 69u8, 84u8]
}

/// The bytes of `HEAD`.
pub open spec fn head_token() -> Seq<u8> {
    seq![72u8, 69u8, 65u8, 68u8]
}

/// The bytes of `POST`.
pub open spec fn post_token() -> Seq<u8> {
    seq![80u8, 79u8, 83u8, 84u8]
}

/// The bytes of `HTTP/1.0`.
pub open spec fn version_tag() -> Seq<u8> {
    seq![72u8, 84u8, 84u8, 80u8, 47u8, 49u8, 46u8, 48u8]
}

/// The bytes of `GET` and a space, with which an HTTP/0.9 request begins.
pub open spec fn simple_request_tag() -> Seq<u8> {
    seq![71u8, 69u8, 84u8, SP]
}

/// A byte of a token: a letter, a digit, or one of ``!#$%&'*+-.^_`|~``.
pub open spec fn is_token_byte(b: u8) -> bool {
    ||| 97 <= b <= 122
    ||| 65 <= b <= 90
    ||| 48 <= b <= 57
    ||| b == 33
    ||| 35 <= b <= 39
    ||| b == 42
    ||| b == 43
    ||| b == 45
    ||| b == 46
    ||| 94 <= b <= 96
    ||| b == 124
    ||| b == 126
}

/// The classes of bytes at which a scan ends.
#[derive(Debug, Clone, Copy)]
pub enum Stop {
    /// A space.
    Space,
    /// A space, a tab, a carriage return or a line feed.
    Blank,
    /// A carriage return.
    Return,
    /// Any byte that is no token byte.
    NonToken,
}

/// `b` ends a scan for `stop`.
pub open spec fn stops(stop: Stop, b: u8) -> bool {
    match stop {
        Stop::Space => b == SP,
        Stop::Blank => b == SP || b == TAB || b == CR || b == LF,
        Stop::Return => b == CR,
        Stop::NonToken => !is_token_byte(b),
    }
}

/// The first index from `i` on at which a byte of `s` ends the scan, or
/// `s.len()` if none does.
pub open spec fn scan_from(s: Seq<u8>, stop: Stop, i: int) -> int
    decreases s.len() - i,
{
    if 0 <= i < s.len() && !stops(stop, s[i]) {
        scan_from(s, stop, i + 1)
    } else {
        i
    }
}

/// The length of the longest prefix of `s` in which no byte ends the scan.
pub open spec fn scan(s: Seq<u8>, stop: Stop) -> int {
    scan_from(s, stop, 0)
}

/// The first index from `i` on at which CRLF stands in `s`, or `s.len()` if
/// it stands nowhere.
pub open spec fn crlf_from(s: Seq<u8>, i: int) -> int
    decreases s.len() - i,
{
    if i < 0 || i + 1 >= s.len() {
        s.len() as int
    } else if s[i] == CR && s[i + 1] == LF {
        i
    } else {
        crlf_from(s, i + 1)
    }
}

/// The index of the first CRLF in `s`, or `s.len()` if there is none.
pub open spec fn crlf_index(s: Seq<u8>) -> int {
    crlf_from(s, 0)
}

/// A fixed literal: `Complete` if the bytes begin with it, `Error` otherwise.
pub open spec fn fixed_rule(s: Seq<u8>, lit: Seq<u8>) -> Rule<()> {
    if starts_with(s, lit) {
        ParseResult::Complete(((), s.skip(lit.len() as int)))
    } else {
        ParseResult::Error
    }
}

/// The method that a token names. A token that is none of the three known
/// ones must be UTF-8 and is kept as it stands.
pub open spec fn method_of(token: Seq<u8>) -> Option<MethodView> {
    if token == get_token() {
        Some(MethodView::Get)
    } else if token == head_token() {
        Some(MethodView::Head)
    } else if token == post_token() {
        Some(MethodView::Post)
    } else if valid_utf8(token) {
        Some(MethodView::Ext(decode_utf8(token)))
    } else {
        None
    }
}

/// The method: the bytes before the first space. The space itself is left.
/// Without a space the outcome is `Error`, however short the input.
pub open spec fn method_rule(s: Seq<u8>) -> Rule<MethodView> {
    let p = scan(s, Stop::Space);
    if p < s.len() && method_of(s.take(p)) is Some {
        ParseResult::Complete((method_of(s.take(p))->0, s.skip(p)))
    } else {
        ParseResult::Error
    }
}

/// The path: the bytes before the first space, tab, carriage return or line
/// feed, which must be UTF-8. The byte that ends the path is left. Without
/// such a byte the outcome is `Error`, however short the input.
pub open spec fn path_rule(s: Seq<u8>) -> Rule<Seq<char>> {
    let p = scan(s, Stop::Blank);
    if p < s.len() && valid_utf8(s.take(p)) {
        ParseResult::Complete((decode_utf8(s.take(p)), s.skip(p)))
    } else {
        ParseResult::Error
    }
}

/// A token: the longest prefix made of token bytes, which may be empty. This rule always completes.
pub open spec fn token_rule(s: Seq<u8>) -> Rule<Seq<char>> {
    let p = scan(s, Stop::NonToken);
    ParseResult::Complete((decode_utf8(s.take(p)), s.skip(p)))
}

/// One header line: a token, then a colon and a space, then either CRLF at
/// once (the header has no value) or a value and CRLF. The value is all that
/// stands between the colon and the first carriage return after it, so it
/// begins with that space.
pub open spec fn header_rule(s: Seq<u8>) -> Rule<Field> {
    let n = scan(s, Stop::NonToken);
    let name = decode_utf8(s.take(n));
    let after_name = s.skip(n);
    let v = after_name.skip(1);
    let p = scan(v, Stop::Return);
    if !starts_with(after_name, colon_space()) {
        ParseResult::Error
    } else if starts_with(v.skip(1), crlf()) {
        ParseResult::Complete(((name, None), v.skip(3)))
    } else if p + 1 < v.len() && v[p + 1] == LF {
        ParseResult::Complete(((name, Some(v.take(p))), v.skip(p + 2)))
    } else {
        ParseResult::Error
    }
}

/// The number that a run of decimal digits stands for.
pub open spec fn digits_value(s: Seq<u8>) -> nat
    decreases s.len(),
{
    if s.len() == 0 {
        0
    } else {
        10 * digits_value(s.drop_last()) + (s.last() - 48) as nat
    }
}

/// Every byte of `s` is a decimal digit.
pub open spec fn all_digits(s: Seq<u8>) -> bool {
    forall|i: int| 0 <= i < s.len() ==> 48 <= #[trigger] s[i] <= 57
}

/// `s` without the plus sign that it may begin with.
pub open spec fn unsigned(s: Seq<u8>) -> Seq<u8> {
    if s.len() > 0 && s[0] == PLUS {
        s.skip(1)
    } else {
        s
    }
}

/// The length that `s` declares: `s` is an optional plus sign and at least
/// one decimal digit, and the number fits a `usize`. Nothing else declares a length.
pub open spec fn decimal_value(s: Seq<u8>) -> Option<usize> {
    let d = unsigned(s);
    if d.len() > 0 && all_digits(d) && digits_value(d) <= usize::MAX {
        Some(digits_value(d) as usize)
    } else {
        None
    }
}

/// The length that the value of a `Content-Length` header declares: the
/// value is the space that every value begins with and then a numeral as
/// `decimal_value` reads it.
pub open spec fn declared_length(value: Option<Seq<u8>>) -> Option<usize> {
    match value {
        Some(v) => if v.len() > 0 && v[0] == SP {
            decimal_value(v.skip(1))
        } else {
            None
        },
        None => None,
    }
}

/// What the header block yields: the headers and the body length that the last `Content-Length` declared.
pub type Block = (Map<Seq<char>, Option<Seq<u8>>>, Option<usize>);

/// The header block, from the state that the headers read so far have left:
/// header lines until the bytes begin with CRLF, which itself is left. A
/// repeated name overwrites the value. A `Content-Length` must declare a
/// length, and the last one counts. A header line that fails is the failure
/// of the block.
pub open spec fn header_block(
    s: Seq<u8>,
    headers: Map<Seq<char>, Option<Seq<u8>>>,
    length: Option<usize>,
) -> Rule<Block>
    decreases s.len(),
{
    if starts_with(s, crlf()) {
        ParseResult::Complete(((headers, length), s))
    } else {
        match header_rule(s) {
            ParseResult::Complete((field, rest)) => {
                if rest.len() >= s.len() {
                    ParseResult::Error
                } else if field.0 != content_length_name() {
                    header_block(rest, headers.insert(field.0, field.1), length)
                } else if declared_length(field.1) is Some {
                    header_block(rest, headers.insert(field.0, field.1), declared_length(field.1))
                } else {
                    ParseResult::Error
                }
            },
            ParseResult::Partial => ParseResult::Partial,
            ParseResult::Error => ParseResult::Error,
        }
    }
}

/// The value that a completed rule read.
pub open spec fn value_of<V>(r: Rule<V>) -> V
    recommends
        r is Complete,
{
    r->Complete_0.0
}

/// The bytes that a completed rule left.
pub open spec fn rest_of<V>(r: Rule<V>) -> Seq<u8>
    recommends
        r is Complete,
{
    r->Complete_0.1
}

/// The failure of one rule as the outcome of the rule that it is part of:
/// `Partial` stays `Partial` and `Error` stays `Error`.
pub open spec fn failure_of<V, W>(r: Rule<V>) -> Rule<W>
    recommends
        !(r is Complete),
{
    match r {
        ParseResult::Partial => ParseResult::Partial,
        _ => ParseResult::Error,
    }
}

/// The request line: method, space, path, space, `HTTP/1.0`, CRLF. The
/// first part that fails is the failure of the line.
pub open spec fn request_line(s: Seq<u8>) -> Rule<(MethodView, Seq<char>)> {
    let method = method_rule(s);
    let gap = fixed_rule(rest_of(method), space());
    let path = path_rule(rest_of(gap));
    let second_gap = fixed_rule(rest_of(path), space());
    let tag = fixed_rule(rest_of(second_gap), version_tag());
    let end = fixed_rule(rest_of(tag), crlf());
    if !(method is Complete) {
        failure_of(method)
    } else if !(gap is Complete) {
        failure_of(gap)
    } else if !(path is Complete) {
        failure_of(path)
    } else if !(second_gap is Complete) {
        failure_of(second_gap)
    } else if !(tag is Complete) {
        failure_of(tag)
    } else if !(end is Complete) {
        failure_of(end)
    } else {
        ParseResult::Complete(((value_of(method), value_of(path)), rest_of(end)))
    }
}

/// The head of an HTTP/1.0 request: the request line, the header block, and
/// the blank line that ends it. The first part that fails is the failure of
/// the head.
pub open spec fn head_rule(s: Seq<u8>) -> Rule<((MethodView, Seq<char>), Block)> {
    let line = request_line(s);
    let block = header_block(rest_of(line), Map::empty(), None);
    let blank = fixed_rule(rest_of(block), crlf());
    if !(line is Complete) {
        failure_of(line)
    } else if !(block is Complete) {
        failure_of(block)
    } else if !(blank is Complete) {
        failure_of(blank)
    } else {
        ParseResult::Complete(((value_of(line), value_of(block)), rest_of(blank)))
    }
}

/// A body of `size` bytes: `Partial` as long as fewer bytes are there.
pub open spec fn body_rule(s: Seq<u8>, size: usize) -> Rule<Seq<u8>> {
    if size <= s.len() {
        ParseResult::Complete((s.take(size as int), s.skip(size as int)))
    } else {
        ParseResult::Partial
    }
}

/// An HTTP/1.0 request. After the head, a declared length asks for that many
/// bytes of body; this is the one place where the outcome can be `Partial`.
/// Bytes after the message are not looked at.
pub open spec fn request_10(s: Seq<u8>) -> ParseResult<RequestView> {
    match head_rule(s) {
        ParseResult::Complete((((method, path), (headers, length)), rest)) => {
            match length {
                None => ParseResult::Complete(
                    RequestView { path, method, version: Version::HTTP10, headers, body: None },
                ),
                Some(size) => match body_rule(rest, size) {
                    ParseResult::Complete((body, _)) => ParseResult::Complete(
                        RequestView {
                            path,
                            method,
                            version: Version::HTTP10,
                            headers,
                            body: Some(body),
                        },
                    ),
                    ParseResult::Partial => ParseResult::Partial,
                    ParseResult::Error => ParseResult::Error,
                },
            }
        },
        ParseResult::Partial => ParseResult::Partial,
        ParseResult::Error => ParseResult::Error,
    }
}

/// An HTTP/0.9 request: `GET`, a space, and the path up to the first CRLF.
/// Without the prefix the outcome is `Error`; without a CRLF it is
/// `Partial`; a path that is not UTF-8 is an `Error`.
pub open spec fn request_09(s: Seq<u8>) -> ParseResult<RequestView> {
    let t = s.skip(4);
    let end = crlf_index(t);
    if !starts_with(s, simple_request_tag()) {
        ParseResult::Error
    } else if end >= t.len() {
        ParseResult::Partial
    } else if valid_utf8(t.take(end)) {
        ParseResult::Complete(
            RequestView {
                path: decode_utf8(t.take(end)),
                method: MethodView::Get,
                version: Version::HTTP09,
                headers: Map::empty(),
                body: None,
            },
        )
    } else {
        ParseResult::Error
    }
}

/// A request: what the HTTP/1.0 grammar makes of the bytes and, only where
/// that is `Error`, what the HTTP/0.9 grammar makes of them.
pub open spec fn request(s: Seq<u8>) -> ParseResult<RequestView> {
    match request_10(s) {
        ParseResult::Error => request_09(s),
        outcome => outcome,
    }
}

/// How a rule moves a cursor: on `Complete` the value is handed out and the
/// cursor stands at the bytes that are left; otherwise the cursor stays.
pub open spec fn advances<V>(rule: Rule<V>, out: ParseResult<V>, before: Seq<u8>, after: Seq<u8>) -> bool {
    match rule {
        ParseResult::Complete((v, rest)) => out == ParseResult::Complete(v) && after == rest,
        ParseResult::Partial => out is Partial && after == before,
        ParseResult::Error => out is Error && after == before,
    }
}

/// `scan_from` stays within `s`, passes no byte that ends the scan, and ends
/// at one unless it ends at the end.
pub proof fn lemma_scan_from(s: Seq<u8>, stop: Stop, i: int)
    requires
        0 <= i <= s.len(),
    ensures
        i <= scan_from(s, stop, i) <= s.len(),
        forall|j: int| i <= j < scan_from(s, stop, i) ==> !stops(stop, #[trigger] s[j]),
        scan_from(s, stop, i) < s.len() ==> stops(stop, s[scan_from(s, stop, i)]),
    decreases s.len() - i,
{
    if i < s.len() && !stops(stop, s[i]) {
        lemma_scan_from(s, stop, i + 1);
    }
}

/// `scan_from` is the one index with those properties.
pub proof fn lemma_scan_is(s: Seq<u8>, stop: Stop, i: int, p: int)
    requires
        0 <= i <= p <= s.len(),
        forall|j: int| i <= j < p ==> !stops(stop, #[trigger] s[j]),
        p < s.len() ==> stops(stop, s[p]),
    ensures
        scan_from(s, stop, i) == p,
    decreases p - i,
{
    if i < p {
        lemma_scan_is(s, stop, i + 1, p);
    }
}

/// `crlf_from` stays within `s`, passes no CRLF, and ends at one unless it
/// ends at the end.
pub proof fn lemma_crlf_from(s: Seq<u8>, i: int)
    requires
        0 <= i <= s.len(),
    ensures
        i <= crlf_from(s, i) <= s.len(),
        forall|j: int| i <= j < crlf_from(s, i) && j + 1 < s.len() ==> !(#[trigger] s[j] == CR && s[j + 1] == LF),
        crlf_from(s, i) < s.len() ==> crlf_from(s, i) + 1 < s.len() && s[crlf_from(s, i)] == CR
            && s[crlf_from(s, i) + 1] == LF,
    decreases s.len() - i,
{
    if i + 1 < s.len() && !(s[i] == CR && s[i + 1] == LF) {
        lemma_crlf_from(s, i + 1);
    }
}

/// `crlf_from` is the one index with those properties.
pub proof fn lemma_crlf_is(s: Seq<u8>, i: int, p: int)
    requires
        0 <= i <= p <= s.len(),
        forall|j: int| i <= j < p && j + 1 < s.len() ==> !(#[trigger] s[j] == CR && s[j + 1] == LF),
        p < s.len() ==> p + 1 < s.len() && s[p] == CR && s[p + 1] == LF,
    ensures
        crlf_from(s, i) == p,
    decreases s.len() - i,
{
    if i < p && i + 1 < s.len() {
        lemma_crlf_is(s, i + 1, p);
    }
}

/// A header line is at least four bytes long: what it leaves is shorter than what it was given.
pub proof fn lemma_header_rule_consumes(s: Seq<u8>)
    ensures
        header_rule(s) matches ParseResult::Complete((_, rest)) ==> rest.len() + 4 <= s.len(),
{
    lemma_scan_from(s, Stop::NonToken, 0);
    let n = scan(s, Stop::NonToken);
    let v = s.skip(n).skip(1);
    if starts_with(s.skip(n), colon_space()) {
        lemma_scan_from(v, Stop::Return, 0);
        assert(v[0] == colon_space()[1]);
    }
}

/// A run of digits stands for at least what each of its prefixes stands for.
pub proof fn lemma_digits_value_grows(s: Seq<u8>, k: int)
    requires
        0 <= k <= s.len(),
    ensures
        digits_value(s.take(k)) <= digits_value(s),
    decreases s.len() - k,
{
    if k < s.len() {
        lemma_digits_value_grows(s, k + 1);
        assert(s.take(k + 1).drop_last() =~= s.take(k));
    } else {
        assert(s.take(k) =~= s);
    }
}

} // verus!
