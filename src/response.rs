//! Outcomes of routing: a successful `Response` or a `WritiumError`.
use vstd::prelude::*;
use crate::request::Request;

verus! {

/// Status code of a successful call.
pub const STATUS_OK: u16 = 200;

/// Status code given when no handler claims a request.
pub const STATUS_NOT_FOUND: u16 = 404;

/// Status code given when a handler has nothing for the request's verb.
pub const STATUS_METHOD_NOT_ALLOWED: u16 = 405;

/// Status code given when follow-up calls go on for too long.
pub const STATUS_LOOP_DETECTED: u16 = 508;

/// Description of the error for a verb that a handler does not implement.
pub const NOT_SUPPORTED: &'static str = "not supported";

/// Description of the error for a request that no handler claims.
pub const API_NOT_FOUND: &'static str = "api not found";

/// Description of the error for a chain of follow-up calls that is too long.
pub const TOO_MANY_FOLLOW_UPS: &'static str = "too many follow-up calls";

/// A failure that travels back to the caller: a status code and a short,
/// static description.
#[derive(Debug, PartialEq, Eq)]
pub struct WritiumError {
    status: u16,
    description: &'static str,
}

impl WritiumError {
    pub closed spec fn spec_status(&self) -> u16 {
        self.status
    }

    pub closed spec fn spec_description(&self) -> &'static str {
        self.description
    }

    pub fn new(status: u16, description: &'static str) -> (r: WritiumError)
        ensures
            r.spec_status() == status,
            r.spec_description() == description,
    {
        WritiumError { status, description }
    }

    pub fn status(&self) -> (r: u16)
        ensures
            r == self.spec_status(),
    {
        self.status
    }

    pub fn description(&self) -> (r: &'static str)
        ensures
            r == self.spec_description(),
    {
        self.description
    }
}

/// A successful outcome: a status code and a body. It may ask the root
/// router for a follow-up call, whose result then stands in its place.
///
/// A callback on the follow-up result cannot ride along: its trait would
/// speak of `ApiResult`, which holds this type, and Verus refuses a type
/// that reaches itself through a trait object.
#[derive(Debug, PartialEq, Eq)]
pub struct Response {
    status: u16,
    body: String,
    call: Option<Request>,
}

impl Response {
    pub closed spec fn spec_status(&self) -> u16 {
        self.status
    }

    pub closed spec fn spec_body(&self) -> Seq<char> {
        self.body@
    }

    /// The follow-up call the response asks for.
    pub closed spec fn spec_follow_up(&self) -> Option<Request> {
        self.call
    }

    pub fn new(status: u16) -> (r: Response)
        ensures
            r.spec_status() == status,
            r.spec_body() == Seq::<char>::empty(),
            r.spec_follow_up() is None,
    {
        Response { status, body: String::new(), call: None }
    }

    pub fn with_body(self, body: String) -> (r: Response)
        ensures
            r.spec_status() == self.spec_status(),
            r.spec_body() == body@,
            r.spec_follow_up() == self.spec_follow_up(),
    {
        Response { status: self.status, body, call: self.call }
    }

    /// Asks for a follow-up call of `req`.
    pub fn with_call(self, req: Request) -> (r: Response)
        ensures
            r.spec_status() == self.spec_status(),
            r.spec_body() == self.spec_body(),
            r.spec_follow_up() == Some(req),
    {
        Response { status: self.status, body: self.body, call: Some(req) }
    }

    /// Takes the follow-up call out of the response.
    pub fn take_follow_up(&mut self) -> (r: Option<Request>)
        ensures
            r == old(self).spec_follow_up(),
            final(self).spec_follow_up() is None,
            final(self).spec_status() == old(self).spec_status(),
            final(self).spec_body() == old(self).spec_body(),
            old(self).spec_follow_up() is None ==> *final(self) == *old(self),
    {
        let mut call: Option<Request> = None;
        core::mem::swap(&mut call, &mut self.call);
        call
    }

    pub fn status(&self) -> (r: u16)
        ensures
            r == self.spec_status(),
    {
        self.status
    }

    pub fn body(&self) -> (r: &str)
        ensures
            r@ == self.spec_body(),
    {
        self.body.as_str()
    }
}

/// What a handler hands back for a request.
pub type ApiResult = Result<Response, WritiumError>;

/// An `ApiResult` holds the given error.
pub open spec fn is_error(r: ApiResult, status: u16, description: &'static str) -> bool {
    &&& r is Err
    &&& r->Err_0.spec_status() == status
    &&& r->Err_0.spec_description() == description
}

/// The error of a handler that has nothing for the request's verb.
pub fn method_not_allowed() -> (r: ApiResult)
    ensures
        is_error(r, STATUS_METHOD_NOT_ALLOWED, NOT_SUPPORTED),
{
    Err(WritiumError::new(STATUS_METHOD_NOT_ALLOWED, NOT_SUPPORTED))
}

/// The error of a router that no handler claims a request for.
pub fn api_not_found() -> (r: ApiResult)
    ensures
        is_error(r, STATUS_NOT_FOUND, API_NOT_FOUND),
{
    Err(WritiumError::new(STATUS_NOT_FOUND, API_NOT_FOUND))
}

/// The error of a chain of follow-up calls that is too long.
pub fn too_many_follow_ups() -> (r: ApiResult)
    ensures
        is_error(r, STATUS_LOOP_DETECTED, TOO_MANY_FOLLOW_UPS),
{
    Err(WritiumError::new(STATUS_LOOP_DETECTED, TOO_MANY_FOLLOW_UPS))
}

} // verus!
