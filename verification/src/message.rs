//! Requests as they are written. A message is given by its parts, and the
//! bytes that stand for it are put together here, without reference to the
//! parser. That the parser reads every such message, and reads its parts out
//! of it, is proved in `laws`.

use vstd::prelude::*;
use vstd::utf8::{decode_utf8, valid_utf8};
use crate::data::{MethodView, RequestView, Version};
use crate::grammar::{
    Block, Stop, colon_space, decimal_value, is_token_byte, method_of, simple_request_tag, space,
    stops, version_tag,
};
use crate::headers::Field;
use crate::text::{CR, LF, SP, content_length_name, crlf};

verus! {

/// A header line as it is written: the name, and the text that follows the
/// colon and the space. An empty text stands for a header without a value.
pub struct Line {
    pub name: Seq<u8>,
    pub text: Seq<u8>,
}

impl Line {
    /// The line may be written: the name is made of token bytes, the text
    /// holds no carriage return, and the text of a `Content-Length` is a
    /// numeral that fits a `usize`.
    pub open spec fn well_formed(self) -> bool {
        &&& forall|i: int| 0 <= i < self.name.len() ==> is_token_byte(#[trigger] self.name[i])
        &&& forall|i: int| 0 <= i < self.text.len() ==> #[trigger] self.text[i] != CR
        &&& self.field().0 == content_length_name() ==> decimal_value(self.text) is Some
    }

    /// The bytes of the line, followed by `rest`.
    pub open spec fn bytes(self, rest: Seq<u8>) -> Seq<u8> {
        self.name + (colon_space() + (self.text + (crlf() + rest)))
    }

    /// The header that the line stands for. A value begins with the space that follows the colon.
    pub open spec fn field(self) -> Field {
        (
            decode_utf8(self.name),
            if self.text.len() == 0 {
                None
            } else {
                Some(seq![SP] + self.text)
            },
        )
    }
}

/// Every line may be written.
pub open spec fn well_formed_lines(lines: Seq<Line>) -> bool {
    forall|i: int| 0 <= i < lines.len() ==> (#[trigger] lines[i]).well_formed()
}

/// The bytes of the lines in order, followed by `rest`.
pub open spec fn lines_bytes(lines: Seq<Line>, rest: Seq<u8>) -> Seq<u8>
    decreases lines.len(),
{
    if lines.len() == 0 {
        rest
    } else {
        lines[0].bytes(lines_bytes(lines.drop_first(), rest))
    }
}

/// The headers and the declared length that the lines leave, from those
/// that stood before them.
pub open spec fn lines_block(
    lines: Seq<Line>,
    headers: Map<Seq<char>, Option<Seq<u8>>>,
    length: Option<usize>,
) -> Block
    decreases lines.len(),
{
    if lines.len() == 0 {
        (headers, length)
    } else {
        let field = lines[0].field();
        lines_block(
            lines.drop_first(),
            headers.insert(field.0, field.1),
            if field.0 == content_length_name() {
                decimal_value(lines[0].text)
            } else {
                length
            },
        )
    }
}

/// A request by its parts.
pub enum Message {
    /// An HTTP/0.9 request for `path`.
    Simple { path: Seq<u8> },
    /// An HTTP/1.0 request.
    Full { method: Seq<u8>, path: Seq<u8>, lines: Seq<Line>, body: Seq<u8> },
}

impl Message {
    /// The message may be written.
    ///
    /// Simple: the path is UTF-8, and no CRLF stands in it or is made by its
    /// last byte and the line end. Full: the method is UTF-8 without a space, the path is
    /// UTF-8 without a space, tab, carriage return or line feed, the lines
    /// may be written, and the body has the length that they declare, or is
    /// empty where they declare none.
    pub open spec fn well_formed(self) -> bool {
        match self {
            Message::Simple { path } => {
                &&& valid_utf8(path)
                &&& forall|i: int|
                    0 <= i < path.len() ==> !(#[trigger] path[i] == CR && (path + crlf())[i + 1]
                        == LF)
            },
            Message::Full { method, path, lines, body } => {
                &&& method_of(method) is Some
                &&& forall|i: int| 0 <= i < method.len() ==> #[trigger] method[i] != SP
                &&& valid_utf8(path)
                &&& forall|i: int| 0 <= i < path.len() ==> !stops(Stop::Blank, #[trigger] path[i])
                &&& well_formed_lines(lines)
                &&& match lines_block(lines, Map::empty(), None).1 {
                    Some(size) => body.len() == size,
                    None => body.len() == 0,
                }
            },
        }
    }

    /// The bytes of the message.
    pub open spec fn bytes(self) -> Seq<u8> {
        match self {
            Message::Simple { path } => simple_request_tag() + (path + crlf()),
            Message::Full { method, path, lines, body } => method + (space() + (path + (space() + (
            version_tag() + (crlf() + lines_bytes(lines, crlf() + body)))))),
        }
    }

    /// The request that the message stands for.
    pub open spec fn request(self) -> RequestView {
        match self {
            Message::Simple { path } => RequestView {
                path: decode_utf8(path),
                method: MethodView::Get,
                version: Version::HTTP09,
                headers: Map::empty(),
                body: None,
            },
            Message::Full { method, path, lines, body } => RequestView {
                path: decode_utf8(path),
                method: method_of(method)->0,
                version: Version::HTTP10,
                headers: lines_block(lines, Map::empty(), None).0,
                body: if lines_block(lines, Map::empty(), None).1 is Some {
                    Some(body)
                } else {
                    None
                },
            },
        }
    }
}

} // verus!
