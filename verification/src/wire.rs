//! The response on the wire: what the bytes are, and the serializer that writes them.

use vstd::prelude::*;
use vstd::utf8::encode_utf8;
use crate::data::{Response, ResponseView, Status, Version};
use crate::headers::{Field, as_map};
use crate::text::{COLON, CR, LF, SP, content_length_name, crlf, opt_octets};

verus! {

/// The decimal numeral of `n`, in ASCII digits, without leading zeros.
pub open spec fn decimal(n: nat) -> Seq<u8>
    decreases n,
{
    if n < 10 {
        seq![(48 + n) as u8]
    } else {
        decimal(n / 10).push((48 + n % 10) as u8)
    }
}

/// The status line of each status, as text.
pub open spec fn status_text(status: Status) -> Seq<char> {
    match status {
        Status::OK => "HTTP/1.0 200 Ok\r\n"@,
        Status::BadRequest => "HTTP/1.0 400 Bad Request\r\n"@,
        Status::NotFound => "HTTP/1.0 404 Not Found\r\n"@,
        Status::InternalServerError => "HTTP/1.0 500 Internal Server Error\r\n"@,
    }
}

/// The status line of each status, as bytes.
pub open spec fn status_line(status: Status) -> Seq<u8> {
    encode_utf8(status_text(status))
}

/// The bytes of an optional value or body; none where it is absent.
pub open spec fn bytes_or_none(v: Option<Seq<u8>>) -> Seq<u8> {
    match v {
        Some(b) => b,
        None => Seq::empty(),
    }
}

/// One header line: the name, a colon and a space, the value if there is one, and CRLF.
pub open spec fn header_line(field: Field) -> Seq<u8> {
    encode_utf8(field.0) + seq![COLON, SP] + bytes_or_none(field.1) + crlf()
}

/// The header lines of `fields`, in order.
pub open spec fn header_lines(fields: Seq<Field>) -> Seq<u8>
    decreases fields.len(),
{
    if fields.len() == 0 {
        Seq::empty()
    } else {
        header_lines(fields.drop_last()) + header_line(fields.last())
    }
}

/// The `Content-Length` line that is written for a body when the headers hold
/// none: a header line like any other, with the body's length in decimal.
pub open spec fn implied_length_line(r: ResponseView) -> Seq<u8> {
    if r.body is Some && !as_map(r.headers).contains_key(content_length_name()) {
        header_line((content_length_name(), Some(decimal(r.body->0.len()))))
    } else {
        Seq::empty()
    }
}

/// An HTTP/0.9 response: the body and nothing else.
pub open spec fn wire_09(r: ResponseView) -> Seq<u8> {
    bytes_or_none(r.body)
}

/// An HTTP/1.0 response: status line, header lines, the `Content-Length` line
/// where it is implied, a blank line, and the body.
pub open spec fn wire_10(r: ResponseView) -> Seq<u8> {
    status_line(r.status) + header_lines(r.headers) + implied_length_line(r) + crlf()
        + bytes_or_none(r.body)
}

/// The response in the format of its version.
pub open spec fn wire(r: ResponseView) -> Seq<u8> {
    match r.version {
        Version::HTTP09 => wire_09(r),
        Version::HTTP10 => wire_10(r),
    }
}

/// Appends `bytes` to `w`.
pub fn put_bytes(w: &mut Vec<u8>, bytes: &[u8])
    ensures
        final(w)@ == old(w)@ + bytes@,
{
    w.extend_from_slice(bytes);
    assert(w@ =~= old(w)@ + bytes@);
}

/// Appends the decimal numeral of `n` to `w`.
pub fn put_decimal(w: &mut Vec<u8>, n: usize)
    ensures
        final(w)@ == old(w)@ + decimal(n as nat),
    decreases n,
{
    if n >= 10 {
        put_decimal(w, n / 10);
    }
    let d: u8 = (n % 10) as u8;
    w.push(48 + d);
    assert(w@ =~= old(w)@ + decimal(n as nat));
}

/// Appends one header line to `w`.
pub fn put_header_line(w: &mut Vec<u8>, name: &str, value: Option<&[u8]>)
    ensures
        final(w)@ == old(w)@ + header_line((name@, opt_octets(value))),
{
    put_bytes(w, name.as_bytes());
    w.push(COLON);
    w.push(SP);
    if let Some(v) = value {
        put_bytes(w, v);
    }
    w.push(CR);
    w.push(LF);
    assert(w@ =~= old(w)@ + header_line((name@, opt_octets(value))));
}

impl Response {
    /// Writes the response to `w` in the format of its version.
    pub fn print_http(&self, w: &mut Vec<u8>)
        ensures
            final(w)@ == old(w)@ + wire(self@),
    {
        match self.version {
            Version::HTTP09 => self.print_http09(w),
            Version::HTTP10 => self.print_http10(w),
        }
    }

    /// Writes the response to `w` as HTTP/0.9: the body, if there is one.
    pub fn print_http09(&self, w: &mut Vec<u8>)
        ensures
            final(w)@ == old(w)@ + wire_09(self@),
    {
        if let Some(body) = &self.body {
            put_bytes(w, body.as_slice());
        }
        assert(w@ =~= old(w)@ + wire_09(self@));
    }

    /// Writes the response to `w` as HTTP/1.0.
    pub fn print_http10(&self, w: &mut Vec<u8>)
        ensures
            final(w)@ == old(w)@ + wire_10(self@),
    {
        let ghost start = w@;
        let ghost fields = self.headers.fields();
        let line: &str = match self.status {
            Status::OK => "HTTP/1.0 200 Ok\r\n",
            Status::BadRequest => "HTTP/1.0 400 Bad Request\r\n",
            Status::NotFound => "HTTP/1.0 404 Not Found\r\n",
            Status::InternalServerError => "HTTP/1.0 500 Internal Server Error\r\n",
        };
        put_bytes(w, line.as_bytes());
        let n: usize = self.headers.len();
        let mut i: usize = 0;
        assert(fields.take(0) =~= Seq::<Field>::empty());
        while i < n
            invariant
                i <= n,
                n == fields.len(),
                fields == self.headers.fields(),
                w@ == start + status_line(self.status) + header_lines(fields.take(i as int)),
            decreases n - i,
        {
            let name = self.headers.name_at(i);
            let value = self.headers.value_at(i);
            let v: Option<&[u8]> = match value {
                Some(b) => Some(b.as_slice()),
                None => None,
            };
            put_header_line(w, name.as_str(), v);
            proof {
                assert(fields.take(i + 1).drop_last() =~= fields.take(i as int));
                assert(fields.take(i + 1).last() == fields[i as int]);
            }
            i += 1;
        }
        assert(fields.take(n as int) =~= fields);
        if !self.headers.contains_key("Content-Length") {
            if let Some(body) = &self.body {
                let mut digits: Vec<u8> = Vec::new();
                put_decimal(&mut digits, body.len());
                assert(digits@ =~= decimal(body@.len()));
                put_header_line(w, "Content-Length", Some(digits.as_slice()));
            }
        }
        w.push(CR);
        w.push(LF);
        if let Some(body) = &self.body {
            put_bytes(w, body.as_slice());
        }
        assert(w@ =~= start + wire_10(self@));
    }
}

} // verus!
