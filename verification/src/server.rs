//! One connection, step by step. The caller reads from the transport and
//! writes to it; what to do after each read is decided here.

use vstd::prelude::*;
use crate::data::{Request, RequestView, Response, ResponseView, Status, Version};
use crate::grammar::request;
use crate::parser::{ParseResult, parse};

verus! {

/// What a connection does next.
pub enum Action<'a> {
    /// Read again, and come back with all the bytes received so far.
    Read,
    /// The stream has ended before a request was complete: close, without a reply.
    Close,
    /// The bytes are no request: write this reply, then close.
    Reply(Response),
    /// The request is complete: look its path up, write the reply, then close.
    Serve(Request<'a>),
}

/// What a connection does next, as the contracts see it.
pub enum ActionView {
    Read,
    Close,
    Reply(ResponseView),
    Serve(RequestView),
}

impl<'a> View for Action<'a> {
    type V = ActionView;

    open spec fn view(&self) -> ActionView {
        match *self {
            Action::Read => ActionView::Read,
            Action::Close => ActionView::Close,
            Action::Reply(response) => ActionView::Reply(response@),
            Action::Serve(request) => ActionView::Serve(request@),
        }
    }
}

/// The reply to bytes that are no request: status `BadRequest`, nothing else.
pub open spec fn refusal() -> ResponseView {
    ResponseView {
        status: Status::BadRequest,
        version: Version::HTTP10,
        headers: Seq::empty(),
        body: None,
    }
}

/// The step after a read of `read` bytes that left `bytes` received in all.
/// A read of no bytes is the end of the stream.
pub open spec fn next_action(bytes: Seq<u8>, read: usize) -> ActionView {
    if read == 0 {
        ActionView::Close
    } else {
        match request(bytes) {
            ParseResult::Complete(request) => ActionView::Serve(request),
            ParseResult::Partial => ActionView::Read,
            ParseResult::Error => ActionView::Reply(refusal()),
        }
    }
}

/// Decides what a connection does after a read of `read` bytes, given all
/// the bytes received so far.
pub fn on_read<'a>(buf: &'a [u8], read: usize) -> (action: Action<'a>)
    ensures
        action@ == next_action(buf@, read),
{
    if read == 0 {
        return Action::Close;
    }
    match parse(buf) {
        ParseResult::Complete(request) => Action::Serve(request),
        ParseResult::Partial => Action::Read,
        ParseResult::Error => Action::Reply(Response::new(Status::BadRequest)),
    }
}

} // verus!
