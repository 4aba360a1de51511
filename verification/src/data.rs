//! The message model: methods, versions, statuses, requests and responses,
//! each with the mathematical view that the contracts speak of.

use vstd::prelude::*;
use crate::headers::{Field, Headers};
use crate::text::{duplicate_opt, opt_octets};

verus! {

/// A request method. `Ext` keeps the token of a method that is none of the three known ones.
#[derive(Debug, Clone, Copy, PartialEq, Eq, PartialOrd, Ord, Hash)]
pub enum Method<'a> {
    Get,
    Head,
    Post,
    Ext(&'a str),
}

/// A method as the contracts see it.
pub enum MethodView {
    Get,
    Head,
    Post,
    Ext(Seq<char>),
}

impl MethodView {
    /// The token that stands for the method on the wire.
    pub open spec fn code(self) -> Seq<char> {
        match self {
            MethodView::Get => "GET"@,
            MethodView::Head => "HEAD"@,
            MethodView::Post => "POST"@,
            MethodView::Ext(token) => token,
        }
    }
}

impl<'a> View for Method<'a> {
    type V = MethodView;

    open spec fn view(&self) -> MethodView {
        match *self {
            Method::Get => MethodView::Get,
            Method::Head => MethodView::Head,
            Method::Post => MethodView::Post,
            Method::Ext(token) => MethodView::Ext(token@),
        }
    }
}

impl<'a> Default for Method<'a> {
    fn default() -> (m: Self)
        ensures
            m@ == MethodView::Get,
    {
        Method::Get
    }
}

impl<'a> Method<'a> {
    /// The token that stands for the method on the wire.
    pub fn get_code(&'a self) -> (code: &'a str)
        ensures
            code@ == self@.code(),
    {
        match *self {
            Method::Get => "GET",
            Method::Head => "HEAD",
            Method::Post => "POST",
            Method::Ext(token) => token,
        }
    }
}

/// The status of a response.
#[derive(Debug, Clone, Copy, PartialEq, Eq, PartialOrd, Ord, Hash, Structural)]
pub enum Status {
    OK,
    BadRequest,
    NotFound,
    InternalServerError,
}

impl Default for Status {
    fn default() -> (s: Self)
        ensures
            s == Status::OK,
    {
        Status::OK
    }
}

/// The protocol version of a message.
#[derive(Debug, Clone, Copy, PartialEq, Eq, PartialOrd, Ord, Hash, Structural)]
pub enum Version {
    HTTP09,
    HTTP10,
}

impl Default for Version {
    fn default() -> (v: Self)
        ensures
            v == Version::HTTP10,
    {
        Version::HTTP10
    }
}

/// A request. Path, method token, header names and values, and body are
/// views into the buffer that was parsed; the request cannot outlive it.
#[derive(Debug)]
pub struct Request<'a> {
    /// The path as it was sent, with the slash that it begins with.
    pub path: &'a str,
    /// The method.
    pub method: Method<'a>,
    /// The version of the grammar that read the request.
    pub version: Version,
    /// The headers. A value begins with the space that follows the colon.
    pub headers: Headers<&'a str, &'a [u8]>,
    /// The body, if a length was declared for it.
    pub body: Option<&'a [u8]>,
}

/// A request as the contracts see it. The headers are a mapping: their order does not count.
pub struct RequestView {
    pub path: Seq<char>,
    pub method: MethodView,
    pub version: Version,
    pub headers: Map<Seq<char>, Option<Seq<u8>>>,
    pub body: Option<Seq<u8>>,
}

impl<'a> View for Request<'a> {
    type V = RequestView;

    open spec fn view(&self) -> RequestView {
        RequestView {
            path: self.path@,
            method: self.method@,
            version: self.version,
            headers: self.headers@,
            body: opt_octets(self.body),
        }
    }
}

impl<'a> Request<'a> {
    /// A request for `path` by `method`, without headers or body, of the default version.
    pub fn new(method: Method<'a>, path: &'a str) -> (r: Self)
        ensures
            r@ == (RequestView {
                path: path@,
                method: method@,
                version: Version::HTTP10,
                headers: Map::empty(),
                body: None,
            }),
    {
        Request { path, method, version: Version::HTTP10, headers: Headers::new(), body: None }
    }
}

impl<'a> Clone for Request<'a> {
    /// The same request, over the same buffer.
    fn clone(&self) -> (copy: Self)
        ensures
            copy@ == self@,
    {
        Request {
            path: self.path,
            method: self.method,
            version: self.version,
            headers: self.headers.clone(),
            body: self.body,
        }
    }
}

impl<'a> Default for Request<'a> {
    fn default() -> (r: Self)
        ensures
            r@ == (RequestView {
                path: Seq::empty(),
                method: MethodView::Get,
                version: Version::HTTP10,
                headers: Map::empty(),
                body: None,
            }),
    {
        proof {
            reveal_strlit("");
        }
        let r = Request::new(Method::Get, "");
        assert(r.path@ =~= Seq::<char>::empty());
        r
    }
}

/// A response. Unlike a request it owns its data.
#[derive(Debug)]
pub struct Response {
    /// The status.
    pub status: Status,
    /// The version in whose format the response is written.
    pub version: Version,
    /// The headers, which are written in the order in which they were first inserted.
    pub headers: Headers<String, Vec<u8>>,
    /// The body, if there is one.
    pub body: Option<Vec<u8>>,
}

/// A response as the contracts see it. The headers are in the order in which
/// they are written to the wire.
pub struct ResponseView {
    pub status: Status,
    pub version: Version,
    pub headers: Seq<Field>,
    pub body: Option<Seq<u8>>,
}

impl View for Response {
    type V = ResponseView;

    open spec fn view(&self) -> ResponseView {
        ResponseView {
            status: self.status,
            version: self.version,
            headers: self.headers.fields(),
            body: opt_octets(self.body),
        }
    }
}

impl Response {
    /// A response of the given status, without headers or body, of the default version.
    pub fn new(status: Status) -> (r: Self)
        ensures
            r@ == (ResponseView {
                status,
                version: Version::HTTP10,
                headers: Seq::empty(),
                body: None,
            }),
    {
        Response { status, version: Version::HTTP10, headers: Headers::new(), body: None }
    }
}

impl Clone for Response {
    /// The same response, with data of its own.
    fn clone(&self) -> (copy: Self)
        ensures
            copy@ == self@,
    {
        Response {
            status: self.status,
            version: self.version,
            headers: self.headers.clone(),
            body: duplicate_opt(&self.body),
        }
    }
}

impl Default for Response {
    fn default() -> (r: Self)
        ensures
            r@ == (ResponseView {
                status: Status::OK,
                version: Version::HTTP10,
                headers: Seq::empty(),
                body: None,
            }),
    {
        Response::new(Status::OK)
    }
}

} // verus!
