//! Laws of the parser: what holds of every input.

use vstd::prelude::*;
use vstd::utf8::{
    decode_utf8, encode_utf8, is_ascii_chars_encode_utf8, valid_utf8, valid_utf8_concat,
};
use crate::data::{MethodView, Request};
use crate::grammar::{
    Block, Stop, colon_space, crlf_index, decimal_value, declared_length, fixed_rule, head_rule,
    header_block, header_rule, is_token_byte, method_of, lemma_crlf_from, lemma_crlf_is, lemma_header_rule_consumes, lemma_scan_from,
    lemma_scan_is, method_rule, path_rule, post_token, get_token, head_token, request,
    request_09, request_10, request_line, rest_of, scan, simple_request_tag, space, starts_with,
    stops, value_of, version_tag,
};
use crate::message::{Line, Message, lines_block, lines_bytes, well_formed_lines};
use crate::parser::{ParseResult, parse};
use crate::text::{CR, LF, SP, content_length_name, crlf, is_ascii_bytes, lemma_ascii_is_utf8};

verus! {

/// Determinism. Parsing is a function of the bytes: any two outcomes that
/// `parse` may return for the same buffer have the same view, which is
/// `request` of the bytes.
pub proof fn law_parse_is_deterministic(
    buf: &[u8],
    first: ParseResult<Request>,
    second: ParseResult<Request>,
)
    requires
        call_ensures(parse, (buf,), first),
        call_ensures(parse, (buf,), second),
    ensures
        first@ == second@,
        first@ == request(buf@),
{
}

/// A scan that ended inside `s` ends at the same place when bytes are added.
pub proof fn lemma_scan_extend(s: Seq<u8>, more: Seq<u8>, stop: Stop)
    requires
        scan(s, stop) < s.len(),
    ensures
        scan(s + more, stop) == scan(s, stop),
{
    lemma_scan_from(s, stop, 0);
    let p = scan(s, stop);
    assert forall|j: int| 0 <= j < p implies !stops(stop, #[trigger] (s + more)[j]) by {
        assert((s + more)[j] == s[j]);
    }
    assert((s + more)[p] == s[p]);
    lemma_scan_is(s + more, stop, 0, p);
}

/// The first CRLF of `s` is the first CRLF of `s` with bytes added.
pub proof fn lemma_crlf_extend(s: Seq<u8>, more: Seq<u8>)
    requires
        crlf_index(s) < s.len(),
    ensures
        crlf_index(s + more) == crlf_index(s),
{
    lemma_crlf_from(s, 0);
    let p = crlf_index(s);
    let t = s + more;
    assert forall|j: int| 0 <= j < p && j + 1 < t.len() implies !(#[trigger] t[j] == CR && t[j + 1]
        == LF) by {
        assert(t[j] == s[j] && t[j + 1] == s[j + 1]);
    }
    assert(t[p] == s[p] && t[p + 1] == s[p + 1]);
    lemma_crlf_is(t, 0, p);
}

/// A literal that was matched is matched when bytes are added, and the added
/// bytes are left.
pub proof fn lemma_fixed_extend(s: Seq<u8>, more: Seq<u8>, lit: Seq<u8>)
    requires
        fixed_rule(s, lit) is Complete,
    ensures
        fixed_rule(s + more, lit) == ParseResult::Complete(
            ((), rest_of(fixed_rule(s, lit)) + more),
        ),
{
    assert forall|i: int| 0 <= i < lit.len() implies (s + more)[i] == lit[i] by {
        assert((s + more)[i] == s[i]);
    }
    assert((s + more).skip(lit.len() as int) =~= s.skip(lit.len() as int) + more);
}

/// A method that was read is read when bytes are added.
pub proof fn lemma_method_extend(s: Seq<u8>, more: Seq<u8>)
    requires
        method_rule(s) is Complete,
    ensures
        method_rule(s + more) == ParseResult::Complete(
            (value_of(method_rule(s)), rest_of(method_rule(s)) + more),
        ),
{
    lemma_scan_extend(s, more, Stop::Space);
    let p = scan(s, Stop::Space);
    lemma_scan_from(s, Stop::Space, 0);
    assert((s + more).take(p) =~= s.take(p));
    assert((s + more).skip(p) =~= s.skip(p) + more);
}

/// A path that was read is read when bytes are added.
pub proof fn lemma_path_extend(s: Seq<u8>, more: Seq<u8>)
    requires
        path_rule(s) is Complete,
    ensures
        path_rule(s + more) == ParseResult::Complete(
            (value_of(path_rule(s)), rest_of(path_rule(s)) + more),
        ),
{
    lemma_scan_extend(s, more, Stop::Blank);
    let p = scan(s, Stop::Blank);
    lemma_scan_from(s, Stop::Blank, 0);
    assert((s + more).take(p) =~= s.take(p));
    assert((s + more).skip(p) =~= s.skip(p) + more);
}

/// A header line that was read is read when bytes are added.
pub proof fn lemma_header_extend(s: Seq<u8>, more: Seq<u8>)
    requires
        header_rule(s) is Complete,
    ensures
        header_rule(s + more) == ParseResult::Complete(
            (value_of(header_rule(s)), rest_of(header_rule(s)) + more),
        ),
{
    let t = s + more;
    lemma_scan_from(s, Stop::NonToken, 0);
    let n = scan(s, Stop::NonToken);
    let after_name = s.skip(n);
    assert(after_name.len() >= 2);
    lemma_scan_extend(s, more, Stop::NonToken);
    assert(t.take(n) =~= s.take(n));
    assert(t.skip(n) =~= after_name + more);
    assert(starts_with(t.skip(n), colon_space())) by {
        assert forall|i: int| 0 <= i < 2 implies t.skip(n)[i] == colon_space()[i] by {
            assert(t.skip(n)[i] == after_name[i]);
        }
    }
    let v = after_name.skip(1);
    let w = v + more;
    assert(t.skip(n).skip(1) =~= w);
    if starts_with(v.skip(1), crlf()) {
        assert(w.skip(1) =~= v.skip(1) + more);
        assert(starts_with(w.skip(1), crlf())) by {
            assert forall|i: int| 0 <= i < 2 implies w.skip(1)[i] == crlf()[i] by {
                assert(w.skip(1)[i] == v.skip(1)[i]);
            }
        }
        assert(w.skip(3) =~= v.skip(3) + more);
    } else {
        lemma_scan_from(v, Stop::Return, 0);
        let p = scan(v, Stop::Return);
        lemma_scan_extend(v, more, Stop::Return);
        assert(v.len() >= 3) by {
            assert(v[0] == colon_space()[1]);
        }
        assert(!starts_with(w.skip(1), crlf())) by {
            if starts_with(w.skip(1), crlf()) {
                assert(w.skip(1)[0] == crlf()[0] && w.skip(1)[1] == crlf()[1]);
                assert forall|i: int| 0 <= i < 2 implies v.skip(1)[i] == crlf()[i] by {
                    assert(v.skip(1)[i] == w.skip(1)[i]);
                }
            }
        }
        assert(w[p + 1] == v[p + 1]);
        assert(w.take(p) =~= v.take(p));
        assert(w.skip(p + 2) =~= v.skip(p + 2) + more);
    }
}

/// A header block that was read is read when bytes are added.
pub proof fn lemma_block_extend(
    s: Seq<u8>,
    more: Seq<u8>,
    headers: Map<Seq<char>, Option<Seq<u8>>>,
    length: Option<usize>,
)
    requires
        header_block(s, headers, length) is Complete,
    ensures
        header_block(s + more, headers, length) == ParseResult::<(Block, Seq<u8>)>::Complete(
            (
                value_of(header_block(s, headers, length)),
                rest_of(header_block(s, headers, length)) + more,
            ),
        ),
    decreases s.len(),
{
    let t = s + more;
    if starts_with(s, crlf()) {
        assert(starts_with(t, crlf())) by {
            assert forall|i: int| 0 <= i < 2 implies t[i] == crlf()[i] by {
                assert(t[i] == s[i]);
            }
        }
    } else {
        lemma_header_rule_consumes(s);
        lemma_header_extend(s, more);
        let field = value_of(header_rule(s));
        let rest = rest_of(header_rule(s));
        assert(s.len() >= 4);
        assert(!starts_with(t, crlf())) by {
            assert(t[0] == s[0] && t[1] == s[1]);
            if starts_with(t, crlf()) {
                assert(t[0] == crlf()[0] && t[1] == crlf()[1]);
                assert forall|i: int| 0 <= i < 2 implies s[i] == crlf()[i] by {}
            }
        }
        assert((rest + more).len() < t.len());
        let next = if field.0 != content_length_name() {
            length
        } else {
            declared_length(field.1)
        };
        lemma_block_extend(rest, more, headers.insert(field.0, field.1), next);
    }
}

/// A request line that was read is read when bytes are added.
pub proof fn lemma_line_extend(s: Seq<u8>, more: Seq<u8>)
    requires
        request_line(s) is Complete,
    ensures
        request_line(s + more) == ParseResult::Complete(
            (value_of(request_line(s)), rest_of(request_line(s)) + more),
        ),
{
    let method = method_rule(s);
    lemma_method_extend(s, more);
    let gap = fixed_rule(rest_of(method), space());
    lemma_fixed_extend(rest_of(method), more, space());
    let path = path_rule(rest_of(gap));
    lemma_path_extend(rest_of(gap), more);
    let second_gap = fixed_rule(rest_of(path), space());
    lemma_fixed_extend(rest_of(path), more, space());
    let tag = fixed_rule(rest_of(second_gap), version_tag());
    lemma_fixed_extend(rest_of(second_gap), more, version_tag());
    lemma_fixed_extend(rest_of(tag), more, crlf());
}

/// A head that was read is read when bytes are added: the head of a message
/// does not depend on what follows it.
pub proof fn lemma_head_extend(s: Seq<u8>, more: Seq<u8>)
    requires
        head_rule(s) is Complete,
    ensures
        head_rule(s + more) == ParseResult::Complete(
            (value_of(head_rule(s)), rest_of(head_rule(s)) + more),
        ),
{
    let line = request_line(s);
    lemma_line_extend(s, more);
    let block = header_block(rest_of(line), Map::empty(), None);
    lemma_block_extend(rest_of(line), more, Map::empty(), None);
    lemma_fixed_extend(rest_of(block), more, crlf());
}

/// The header block does not ask for more: it completes or it refuses.
pub proof fn lemma_block_decides(
    s: Seq<u8>,
    headers: Map<Seq<char>, Option<Seq<u8>>>,
    length: Option<usize>,
)
    ensures
        !(header_block(s, headers, length) is Partial),
    decreases s.len(),
{
    if !starts_with(s, crlf()) {
        if let ParseResult::Complete((field, rest)) = header_rule(s) {
            if rest.len() < s.len() {
                let next = if field.0 != content_length_name() {
                    length
                } else {
                    declared_length(field.1)
                };
                lemma_block_decides(rest, headers.insert(field.0, field.1), next);
            }
        }
    }
}

/// The head does not ask for more: the HTTP/1.0 grammar asks for more only
/// where the head is read and the body is short.
pub proof fn lemma_head_decides(s: Seq<u8>)
    ensures
        !(head_rule(s) is Partial),
{
    lemma_block_decides(rest_of(request_line(s)), Map::empty(), None);
}

/// Once the HTTP/1.0 grammar has read a head, no bytes that follow make it refuse the message.
pub proof fn lemma_head_settles(s: Seq<u8>, more: Seq<u8>)
    requires
        !(request_10(s) is Error),
    ensures
        !(request_10(s + more) is Error),
{
    lemma_head_decides(s);
    lemma_head_extend(s, more);
}

/// A request line that begins with `GET` and a space, seen through the
/// HTTP/0.9 grammar: the first CRLF after that prefix is the one that ends
/// the request line, and what stands before it is UTF-8.
pub proof fn lemma_request_line_of_get(s: Seq<u8>)
    requires
        request_line(s) is Complete,
        starts_with(s, simple_request_tag()),
    ensures
        crlf_index(s.skip(4)) + 2 <= s.skip(4).len(),
        valid_utf8(s.skip(4).take(crlf_index(s.skip(4)))),
        rest_of(request_line(s)) == s.skip(4).skip(crlf_index(s.skip(4)) + 2),
{
    let tag = simple_request_tag();
    assert(s[0] == tag[0] && s[1] == tag[1] && s[2] == tag[2] && s[3] == tag[3]);
    assert(scan(s, Stop::Space) == 3) by {
        assert forall|j: int| 0 <= j < 3 implies !stops(Stop::Space, #[trigger] s[j]) by {}
        lemma_scan_is(s, Stop::Space, 0, 3);
    }
    let t = s.skip(4);
    assert(rest_of(fixed_rule(rest_of(method_rule(s)), space())) =~= t);
    lemma_scan_from(t, Stop::Blank, 0);
    let q = scan(t, Stop::Blank);
    let s3 = t.skip(q);
    let s4 = s3.skip(1);
    let s5 = s4.skip(8);
    assert(rest_of(path_rule(t)) == s3);
    assert(rest_of(fixed_rule(s3, space())) == s4);
    assert(rest_of(fixed_rule(s4, version_tag())) == s5);
    assert(starts_with(s3, space()) && starts_with(s4, version_tag()) && starts_with(s5, crlf()));
    let end = q + 9;
    assert(t[q] == SP) by {
        assert(s3[0] == space()[0]);
    }
    assert forall|i: int| 0 <= i < 8 implies t[q + 1 + i] == version_tag()[i] by {
        assert(s4[i] == version_tag()[i]);
    }
    assert(t[end] == CR && t[end + 1] == LF) by {
        assert(s5[0] == crlf()[0] && s5[1] == crlf()[1]);
    }
    assert forall|j: int| 0 <= j < end && j + 1 < t.len() implies !(#[trigger] t[j] == CR && t[j
        + 1] == LF) by {
        if j < q {
            assert(!stops(Stop::Blank, t[j]));
        } else if j > q {
            assert(t[q + 1 + (j - q - 1)] == version_tag()[j - q - 1]);
        }
    }
    lemma_crlf_is(t, 0, end);
    let line_end = t.subrange(q, end);
    assert(is_ascii_bytes(line_end)) by {
        assert forall|i: int| 0 <= i < line_end.len() implies line_end[i] < 128 by {
            if i > 0 {
                assert(t[q + 1 + (i - 1)] == version_tag()[i - 1]);
            }
        }
    }
    lemma_ascii_is_utf8(line_end);
    valid_utf8_concat(t.take(q), line_end);
    assert(t.take(end) =~= t.take(q) + line_end);
    assert(rest_of(fixed_rule(s5, crlf())) =~= t.skip(end + 2));
}

/// Where the HTTP/1.0 grammar completes on bytes that begin with `GET` and a
/// space, the HTTP/0.9 grammar completes on them too: its path is the rest
/// of the request line.
pub proof fn lemma_full_request_is_simple_request(s: Seq<u8>)
    requires
        request_10(s) is Complete,
        starts_with(s, simple_request_tag()),
    ensures
        request_09(s) is Complete,
{
    lemma_request_line_of_get(s);
}

/// Monotonic completion, for any message on which the parser completes. Let
/// `parse` ask for more on `bytes`, and let `message`, on which it
/// completes, begin with `bytes`. Then on no `longer` input between the
/// two, `message` included, does `parse` answer `Error`.
pub proof fn law_completion_is_monotonic(bytes: Seq<u8>, longer: Seq<u8>, message: Seq<u8>)
    requires
        request(bytes) is Partial,
        bytes.is_prefix_of(longer),
        longer.is_prefix_of(message),
        request(message) is Complete,
    ensures
        !(request(longer) is Error),
{
    let more = longer.skip(bytes.len() as int);
    assert(longer =~= bytes + more);
    let last = message.skip(longer.len() as int);
    assert(message =~= longer + last);
    if request_10(bytes) is Partial {
        lemma_head_settles(bytes, more);
    } else if request_10(longer) is Error {
        let tag = simple_request_tag();
        assert(starts_with(longer, tag)) by {
            assert forall|i: int| 0 <= i < tag.len() implies longer[i] == tag[i] by {
                assert(longer[i] == bytes[i]);
            }
        }
        assert(starts_with(message, tag)) by {
            assert forall|i: int| 0 <= i < tag.len() implies message[i] == tag[i] by {
                assert(message[i] == longer[i]);
            }
        }
        let t = longer.skip(4);
        let end = crlf_index(t);
        lemma_crlf_from(t, 0);
        if end < t.len() {
            lemma_crlf_extend(t, last);
            assert(message.skip(4) =~= t + last);
            assert(message.skip(4).take(end) =~= t.take(end));
            if request_10(message) is Complete {
                lemma_full_request_is_simple_request(message);
            }
        }
    }
}

/// A literal is read off the front of the bytes that begin with it.
pub proof fn lemma_fixed_reads(lit: Seq<u8>, rest: Seq<u8>)
    ensures
        fixed_rule(lit + rest, lit) == ParseResult::Complete(((), rest)),
{
    let s = lit + rest;
    assert forall|i: int| 0 <= i < lit.len() implies s[i] == lit[i] by {}
    assert(s.skip(lit.len() as int) =~= rest);
}

/// A scan over `front + rest` ends where `front` ends, if no byte of
/// `front` ends it and the first byte of `rest` does.
pub proof fn lemma_scan_reads(front: Seq<u8>, rest: Seq<u8>, stop: Stop)
    requires
        forall|i: int| 0 <= i < front.len() ==> !stops(stop, #[trigger] front[i]),
        rest.len() > 0,
        stops(stop, rest[0]),
    ensures
        scan(front + rest, stop) == front.len(),
        (front + rest).take(front.len() as int) == front,
        (front + rest).skip(front.len() as int) == rest,
{
    let s = front + rest;
    assert forall|j: int| 0 <= j < front.len() implies !stops(stop, #[trigger] s[j]) by {
        assert(s[j] == front[j]);
    }
    assert(s[front.len() as int] == rest[0]);
    lemma_scan_is(s, stop, 0, front.len() as int);
    assert(s.take(front.len() as int) =~= front);
    assert(s.skip(front.len() as int) =~= rest);
}

/// A header line that may be written is read as the header it stands for.
pub proof fn lemma_line_reads(line: Line, rest: Seq<u8>)
    requires
        line.well_formed(),
    ensures
        header_rule(line.bytes(rest)) == ParseResult::Complete((line.field(), rest)),
{
    let after_text = crlf() + rest;
    let after_colon = line.text + after_text;
    let after_name = colon_space() + after_colon;
    let s = line.name + after_name;
    assert(after_name[0] == colon_space()[0]);
    lemma_scan_reads(line.name, after_name, Stop::NonToken);
    assert(starts_with(after_name, colon_space())) by {
        assert forall|i: int| 0 <= i < 2 implies after_name[i] == colon_space()[i] by {}
    }
    let v = after_name.skip(1);
    assert(v.skip(1) =~= after_colon);
    if line.text.len() == 0 {
        assert(after_colon =~= after_text);
        assert(starts_with(after_text, crlf())) by {
            assert forall|i: int| 0 <= i < 2 implies after_text[i] == crlf()[i] by {}
        }
        assert(v.skip(3) =~= rest);
    } else {
        assert(!starts_with(v.skip(1), crlf())) by {
            assert(after_colon[0] == line.text[0]);
            if starts_with(after_colon, crlf()) {
                assert(after_colon[0] == crlf()[0]);
            }
        }
        let value = seq![SP] + line.text;
        assert(v =~= value + after_text);
        assert(after_text[0] == crlf()[0] && after_text[1] == crlf()[1]);
        assert forall|i: int| 0 <= i < value.len() implies !stops(Stop::Return, #[trigger] value[i]) by {
            if i > 0 {
                assert(value[i] == line.text[i - 1]);
            }
        }
        lemma_scan_reads(value, after_text, Stop::Return);
        let p = value.len() as int;
        assert(v[p + 1] == after_text[1]);
        assert(v.skip(p + 2) =~= rest);
    }
}

/// Header lines that may be written, followed by a blank line, are read as
/// the headers they stand for, and the blank line is left.
pub proof fn lemma_lines_read(
    lines: Seq<Line>,
    rest: Seq<u8>,
    headers: Map<Seq<char>, Option<Seq<u8>>>,
    length: Option<usize>,
)
    requires
        well_formed_lines(lines),
        starts_with(rest, crlf()),
    ensures
        header_block(lines_bytes(lines, rest), headers, length) == ParseResult::<
            (Block, Seq<u8>),
        >::Complete((lines_block(lines, headers, length), rest)),
    decreases lines.len(),
{
    if lines.len() > 0 {
        let line = lines[0];
        let others = lines.drop_first();
        let after = lines_bytes(others, rest);
        let s = line.bytes(after);
        assert(line.well_formed());
        assert(well_formed_lines(others)) by {
            assert forall|i: int| 0 <= i < others.len() implies (#[trigger] others[i]).well_formed() by {
                assert(others[i] == lines[i + 1]);
            }
        }
        lemma_line_reads(line, after);
        lemma_header_rule_consumes(s);
        assert(!starts_with(s, crlf())) by {
            let after_name = colon_space() + (line.text + (crlf() + after));
            assert(after_name[0] == colon_space()[0]);
            if line.name.len() > 0 {
                assert(s[0] == line.name[0]);
                assert(is_token_byte(line.name[0]));
            } else {
                assert(s[0] == after_name[0]);
            }
            if starts_with(s, crlf()) {
                assert(s[0] == crlf()[0]);
            }
        }
        let field = line.field();
        if field.0 == content_length_name() {
            assert(line.text.len() > 0);
            assert((seq![SP] + line.text).skip(1) =~= line.text);
            assert((seq![SP] + line.text)[0] == SP);
        }
        let next = if field.0 == content_length_name() {
            decimal_value(line.text)
        } else {
            length
        };
        lemma_lines_read(others, rest, headers.insert(field.0, field.1), next);
    }
}

/// The request line of a full message is read as its method and its path.
pub proof fn lemma_request_line_reads(method: Seq<u8>, path: Seq<u8>, rest: Seq<u8>)
    requires
        method_of(method) is Some,
        forall|i: int| 0 <= i < method.len() ==> #[trigger] method[i] != SP,
        valid_utf8(path),
        forall|i: int| 0 <= i < path.len() ==> !stops(Stop::Blank, #[trigger] path[i]),
    ensures
        request_line(
            method + (space() + (path + (space() + (version_tag() + (crlf() + rest))))),
        ) == ParseResult::<((MethodView, Seq<char>), Seq<u8>)>::Complete(
            ((method_of(method)->0, decode_utf8(path)), rest),
        ),
{
    let s5 = crlf() + rest;
    let s4 = version_tag() + s5;
    let s3 = space() + s4;
    let s2 = path + s3;
    let s1 = space() + s2;
    let s0 = method + s1;
    assert(s1[0] == space()[0] && s3[0] == space()[0]);
    lemma_scan_reads(method, s1, Stop::Space);
    assert(method_rule(s0) == ParseResult::<(MethodView, Seq<u8>)>::Complete(
        (method_of(method)->0, s1),
    ));
    lemma_fixed_reads(space(), s2);
    lemma_scan_reads(path, s3, Stop::Blank);
    assert(path_rule(s2) == ParseResult::<(Seq<char>, Seq<u8>)>::Complete((decode_utf8(path), s3)));
    lemma_fixed_reads(space(), s4);
    lemma_fixed_reads(version_tag(), s5);
    lemma_fixed_reads(crlf(), rest);
}

/// On the bytes of a full message that may be written, the HTTP/1.0 grammar
/// completes with the request that the message stands for.
pub proof fn lemma_full_message_is_read(message: Message)
    requires
        message is Full,
        message.well_formed(),
    ensures
        request_10(message.bytes()) == ParseResult::Complete(message.request()),
{
    let method = message->method;
    let path = message->Full_path;
    let lines = message->lines;
    let body = message->body;
    let block = lines_block(lines, Map::empty(), None);
    let s7 = crlf() + body;
    let s6 = lines_bytes(lines, s7);
    let s0 = message.bytes();
    lemma_request_line_reads(method, path, s6);
    assert(starts_with(s7, crlf())) by {
        assert forall|i: int| 0 <= i < 2 implies s7[i] == crlf()[i] by {}
    }
    lemma_lines_read(lines, s7, Map::empty(), None);
    lemma_fixed_reads(crlf(), body);
    assert(head_rule(s0) == ParseResult::<(((MethodView, Seq<char>), Block), Seq<u8>)>::Complete(
        (((method_of(method)->0, decode_utf8(path)), block), body),
    ));
    if block.1 is Some {
        assert(body.take(body.len() as int) =~= body);
    }
}

/// On the bytes of a simple message that may be written, the HTTP/0.9
/// grammar completes with the request that the message stands for.
pub proof fn lemma_simple_message_is_read(message: Message)
    requires
        message is Simple,
        message.well_formed(),
    ensures
        request_09(message.bytes()) == ParseResult::Complete(message.request()),
        crlf_index(message.bytes().skip(4)) == message->Simple_path.len(),
{
    let path = message->Simple_path;
    let s = message.bytes();
    let t = path + crlf();
    let tag = simple_request_tag();
    assert(starts_with(s, tag)) by {
        assert forall|i: int| 0 <= i < tag.len() implies s[i] == tag[i] by {}
    }
    assert(s.skip(4) =~= t);
    let end = path.len() as int;
    assert(t[end] == crlf()[0] && t[end + 1] == crlf()[1]);
    assert forall|j: int| 0 <= j < end && j + 1 < t.len() implies !(#[trigger] t[j] == CR && t[j
        + 1] == LF) by {
        assert(t[j] == path[j]);
    }
    lemma_crlf_is(t, 0, end);
    assert(t.take(end) =~= path);
}

/// The bytes of a simple message are no HTTP/1.0 request: nothing follows
/// the one CRLF, where that grammar wants a header or a blank line.
pub proof fn lemma_simple_message_is_not_full(message: Message)
    requires
        message is Simple,
        message.well_formed(),
    ensures
        request_10(message.bytes()) is Error,
{
    let s = message.bytes();
    lemma_simple_message_is_read(message);
    lemma_head_decides(s);
    if request_line(s) is Complete {
        let tag = simple_request_tag();
        assert(starts_with(s, tag)) by {
            assert forall|i: int| 0 <= i < tag.len() implies s[i] == tag[i] by {}
        }
        lemma_request_line_of_get(s);
        let rest = rest_of(request_line(s));
        assert(rest.len() == 0);
        lemma_scan_from(rest, Stop::NonToken, 0);
        assert(header_rule(rest) is Error);
        assert(header_block(rest, Map::empty(), None) is Error);
    }
}

/// The parser reads what is written. On the bytes of a message that may be
/// written, `parse` completes, and the request it returns is the request
/// that the message stands for.
pub proof fn law_messages_are_read(message: Message)
    requires
        message.well_formed(),
    ensures
        request(message.bytes()) == ParseResult::Complete(message.request()),
{
    match message {
        Message::Simple { .. } => {
            lemma_simple_message_is_read(message);
            lemma_simple_message_is_not_full(message);
        },
        Message::Full { .. } => {
            lemma_full_message_is_read(message);
        },
    }
}

/// Monotonic completion. Let `parse` ask for more on `bytes`, and let
/// `bytes` be the beginning of a message that may be written. Then on no
/// `longer` input between the two does `parse` answer `Error`, and on the
/// whole message it completes.
pub proof fn law_monotonic_completion(bytes: Seq<u8>, longer: Seq<u8>, message: Message)
    requires
        request(bytes) is Partial,
        message.well_formed(),
        bytes.is_prefix_of(longer),
        longer.is_prefix_of(message.bytes()),
    ensures
        !(request(longer) is Error),
        request(message.bytes()) is Complete,
{
    law_messages_are_read(message);
    law_completion_is_monotonic(bytes, longer, message.bytes());
}

/// The literals of the grammar spell what their names say.
pub proof fn law_literals_spell()
    ensures
        get_token() == encode_utf8("GET"@),
        head_token() == encode_utf8("HEAD"@),
        post_token() == encode_utf8("POST"@),
        version_tag() == encode_utf8("HTTP/1.0"@),
        simple_request_tag() == encode_utf8("GET "@),
        space() == encode_utf8(" "@),
        colon_space() == encode_utf8(": "@),
        crlf() == encode_utf8("\r\n"@),
{
    reveal_strlit("GET");
    reveal_strlit("HEAD");
    reveal_strlit("POST");
    reveal_strlit("HTTP/1.0");
    reveal_strlit("GET ");
    reveal_strlit(" ");
    reveal_strlit(": ");
    reveal_strlit("\r\n");
    is_ascii_chars_encode_utf8("GET"@);
    is_ascii_chars_encode_utf8("HEAD"@);
    is_ascii_chars_encode_utf8("POST"@);
    is_ascii_chars_encode_utf8("HTTP/1.0"@);
    is_ascii_chars_encode_utf8("GET "@);
    is_ascii_chars_encode_utf8(" "@);
    is_ascii_chars_encode_utf8(": "@);
    is_ascii_chars_encode_utf8("\r\n"@);
    assert(get_token() =~= encode_utf8("GET"@));
    assert(head_token() =~= encode_utf8("HEAD"@));
    assert(post_token() =~= encode_utf8("POST"@));
    assert(version_tag() =~= encode_utf8("HTTP/1.0"@));
    assert(simple_request_tag() =~= encode_utf8("GET "@));
    assert(space() =~= encode_utf8(" "@));
    assert(colon_space() =~= encode_utf8(": "@));
    assert(crlf() =~= encode_utf8("\r\n"@));
}

} // verus!
