//! Locating a resource: what is decided of a request path and of the outcome
//! of a lookup. The lookup itself, on a file system or elsewhere, is the
//! caller's.

use vstd::prelude::*;
use vstd::string::StrSliceExecFns;
use crate::data::{Response, ResponseView, Status, Version};

verus! {

/// Why a resource could not be had.
#[derive(Debug, Clone, Copy, PartialEq, Eq, Structural)]
pub enum LocateError {
    /// There is no such resource.
    NotFound,
    /// The resource lies outside of what may be served.
    AccessDenied,
    /// Any other failure.
    Other,
}

/// The number of slashes from index `i` on with which `path` goes on.
pub open spec fn slashes_from(path: Seq<char>, i: int) -> int
    decreases path.len() - i,
{
    if 0 <= i < path.len() && path[i] == '/' {
        slashes_from(path, i + 1)
    } else {
        i
    }
}

/// The number of slashes with which `path` begins.
pub open spec fn leading_slashes(path: Seq<char>) -> int {
    slashes_from(path, 0)
}

/// `slashes_from` is the one index up to which there are only slashes and at which there is none.
pub proof fn lemma_slashes_from(path: Seq<char>, i: int, k: int)
    requires
        0 <= i <= k <= path.len(),
        forall|j: int| i <= j < k ==> path[j] == '/',
        k < path.len() ==> path[k] != '/',
    ensures
        slashes_from(path, i) == k,
    decreases k - i,
{
    if i < k {
        lemma_slashes_from(path, i + 1, k);
    }
}

/// The path of a request as a path below the root that is served: the path
/// without the slashes that it begins with.
pub fn relative_path<'a>(path: &'a str) -> (relative: &'a str)
    ensures
        relative@ == path@.skip(leading_slashes(path@)),
{
    let n: usize = path.unicode_len();
    let mut k: usize = 0;
    while k < n && path.get_char(k) == '/'
        invariant
            k <= n,
            n == path@.len(),
            forall|j: int| 0 <= j < k ==> path@[j] == '/',
        decreases n - k,
    {
        k += 1;
    }
    proof {
        lemma_slashes_from(path@, 0, k as int);
    }
    path.substring_char(k, n)
}

/// The status that answers a failed lookup.
pub open spec fn status_of(error: LocateError) -> Status {
    match error {
        LocateError::NotFound => Status::NotFound,
        LocateError::AccessDenied => Status::BadRequest,
        LocateError::Other => Status::InternalServerError,
    }
}

/// The status that answers a failed lookup.
pub fn status_for(error: LocateError) -> (status: Status)
    ensures
        status == status_of(error),
{
    match error {
        LocateError::NotFound => Status::NotFound,
        LocateError::AccessDenied => Status::BadRequest,
        LocateError::Other => Status::InternalServerError,
    }
}

/// The response that answers a lookup, as the contracts see it.
pub open spec fn response_of(found: Result<Seq<u8>, LocateError>) -> ResponseView {
    match found {
        Ok(content) => ResponseView {
            status: Status::OK,
            version: Version::HTTP10,
            headers: Seq::empty(),
            body: Some(content),
        },
        Err(error) => ResponseView {
            status: status_of(error),
            version: Version::HTTP10,
            headers: Seq::empty(),
            body: None,
        },
    }
}

/// What was looked up, as the contracts see it.
pub open spec fn found_view(found: Result<Vec<u8>, LocateError>) -> Result<Seq<u8>, LocateError> {
    match found {
        Ok(content) => Ok(content@),
        Err(error) => Err(error),
    }
}

/// The response that answers a lookup: the content with status `OK`, or the
/// status of the failure without a body.
pub fn respond(found: Result<Vec<u8>, LocateError>) -> (response: Response)
    ensures
        response@ == response_of(found_view(found)),
{
    match found {
        Ok(content) => {
            let mut response = Response::new(Status::OK);
            response.body = Some(content);
            response
        },
        Err(error) => Response::new(status_for(error)),
    }
}

} // verus!
