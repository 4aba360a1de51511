//! Bytes and text: the bridge between `&[u8]` and `&str`, and the two small
//! traits that let borrowed and owned header fields share one container.

use vstd::prelude::*;
use vstd::utf8::*;
use vstd::string::*;
use core::str::Utf8Error;

verus! {

broadcast use vstd::slice::group_slice_axioms;

/// Carriage return.
pub const CR: u8 = 13;

/// Line feed.
pub const LF: u8 = 10;

/// Space.
pub const SP: u8 = 32;

/// Horizontal tab.
pub const TAB: u8 = 9;

/// Colon.
pub const COLON: u8 = 58;

/// Plus sign.
pub const PLUS: u8 = 43;

/// The error of `core::str::from_utf8`; only carried, never inspected.
#[verifier::external_type_specification]
#[verifier::external_body]
pub struct ExUtf8Error(Utf8Error);

/// `core::str::from_utf8` succeeds exactly on well-formed UTF-8, and the text
/// it returns is the decoding of the bytes it was given.
pub assume_specification[ core::str::from_utf8 ](v: &[u8]) -> (r: Result<&str, Utf8Error>)
    ensures
        r is Ok <==> valid_utf8(v@),
        r matches Ok(s) ==> s@ == decode_utf8(v@),
;

/// Carriage return, line feed: the line terminator.
pub open spec fn crlf() -> Seq<u8> {
    seq![CR, LF]
}

/// The name of the header that declares the length of the body.
pub open spec fn content_length_name() -> Seq<char> {
    "Content-Length"@
}

/// Every byte is below 128.
pub open spec fn is_ascii_bytes(s: Seq<u8>) -> bool {
    forall|i: int| 0 <= i < s.len() ==> s[i] < 128
}

/// ASCII bytes are well-formed UTF-8.
pub proof fn lemma_ascii_is_utf8(s: Seq<u8>)
    requires
        is_ascii_bytes(s),
    ensures
        valid_utf8(s),
{
    assert(s.subrange(0, 0) =~= Seq::<u8>::empty());
    assert(partial_valid_utf8(s, 0));
    assert forall|i: int| 0 <= i < s.len() implies #[trigger] is_leading_byte_width_1(s[i]) by {}
    partial_valid_utf8_extend_ascii_block(s, 0, s.len() as int);
    assert(s.subrange(0, s.len() as int) =~= s);
}

/// Text determines its encoding and the encoding determines the text.
pub proof fn lemma_encoding_injective(a: Seq<char>, b: Seq<char>)
    ensures
        (encode_utf8(a) == encode_utf8(b)) <==> (a == b),
{
    encode_utf8_decode_utf8(a);
    encode_utf8_decode_utf8(b);
}

/// Byte-wise equality of two slices.
pub fn bytes_eq(a: &[u8], b: &[u8]) -> (r: bool)
    ensures
        r == (a@ == b@),
{
    if a.len() != b.len() {
        return false;
    }
    let n: usize = a.len();
    let mut i: usize = 0;
    while i < n
        invariant
            i <= n,
            n == a@.len(),
            n == b@.len(),
            forall|j: int| 0 <= j < i ==> a@[j] == b@[j],
        decreases n - i,
    {
        if a[i] != b[i] {
            return false;
        }
        i += 1;
    }
    assert(a@ =~= b@);
    true
}

/// Equality of two texts, character for character.
pub fn str_eq(a: &str, b: &str) -> (r: bool)
    ensures
        r == (a@ == b@),
{
    proof {
        lemma_encoding_injective(a@, b@);
    }
    bytes_eq(a.as_bytes(), b.as_bytes())
}

/// A header name: something that can be read as text.
pub trait Text {
    /// The characters of the text.
    spec fn chars(&self) -> Seq<char>;

    /// The text as a string slice.
    fn as_text(&self) -> (s: &str)
        ensures
            s@ == self.chars(),
    ;

    /// A copy with the same characters.
    fn duplicate(&self) -> (copy: Self) where Self: Sized
        ensures
            copy.chars() == self.chars(),
    ;
}

impl<'a> Text for &'a str {
    open spec fn chars(&self) -> Seq<char> {
        self@
    }

    fn as_text(&self) -> (s: &str) {
        *self
    }

    fn duplicate(&self) -> (copy: Self) {
        *self
    }
}

impl Text for String {
    open spec fn chars(&self) -> Seq<char> {
        self@
    }

    fn as_text(&self) -> (s: &str) {
        self.as_str()
    }

    fn duplicate(&self) -> (copy: Self) {
        self.clone()
    }
}

/// A header value or a body: something that can be read as bytes.
pub trait Octets {
    /// The bytes held.
    spec fn octets(&self) -> Seq<u8>;

    /// The bytes as a slice.
    fn as_octets(&self) -> (b: &[u8])
        ensures
            b@ == self.octets(),
    ;

    /// A copy with the same bytes.
    fn duplicate(&self) -> (copy: Self) where Self: Sized
        ensures
            copy.octets() == self.octets(),
    ;
}

impl<'a> Octets for &'a [u8] {
    open spec fn octets(&self) -> Seq<u8> {
        self@
    }

    fn as_octets(&self) -> (b: &[u8]) {
        *self
    }

    fn duplicate(&self) -> (copy: Self) {
        *self
    }
}

impl Octets for Vec<u8> {
    open spec fn octets(&self) -> Seq<u8> {
        self@
    }

    fn as_octets(&self) -> (b: &[u8]) {
        self.as_slice()
    }

    fn duplicate(&self) -> (copy: Self) {
        vstd::slice::slice_to_vec(self.as_slice())
    }
}

/// A copy of an optional field.
pub fn duplicate_opt<B: Octets>(v: &Option<B>) -> (copy: Option<B>)
    ensures
        opt_octets(copy) == opt_octets(*v),
{
    match v {
        Some(b) => Some(b.duplicate()),
        None => None,
    }
}

/// The bytes of an optional field, if it is present.
pub open spec fn opt_octets<B: Octets>(v: Option<B>) -> Option<Seq<u8>> {
    match v {
        Some(b) => Some(b.octets()),
        None => None,
    }
}

} // verus!
