//! HTTP status codes.
use vstd::prelude::*;

verus! {

/// The status code of an HTTP response: three digits.
#[derive(Clone, Copy, Debug, PartialEq, Eq, Structural)]
pub struct Status {
    code: u16,
}

/// Whether hyper counts `code` as a success. The call is
/// `hyper::StatusCode::is_success`, on the status that
/// `hyper::StatusCode::from_u16` makes of a code from 100 to 999; it holds exactly
/// of the codes from 200 to 299.
#[verifier::external_body]
fn code_is_success(code: u16) -> (success: bool)
    requires
        100 <= code <= 999,
    ensures
        success == (200 <= code <= 299),
{
    hyper::StatusCode::from_u16(code).unwrap().is_success()
}

impl Status {
    #[verifier::type_invariant]
    spec fn has_three_digits(self) -> bool {
        100 <= self.code <= 999
    }

    /// The code as a number.
    pub closed spec fn number(self) -> int {
        self.code as int
    }

    /// A success is a code from 200 to 299.
    pub open spec fn succeeds(self) -> bool {
        200 <= self.number() <= 299
    }

    /// The status with this code; `None` where it has not three digits.
    pub fn new(code: u16) -> (status: Option<Status>)
        ensures
            status is Some <==> 100 <= code <= 999,
            status matches Some(s) ==> s.number() == code,
    {
        if 100 <= code && code <= 999 {
            Some(Status { code })
        } else {
            None
        }
    }

    /// 200: the response carries data.
    pub fn ok() -> (status: Status)
        ensures
            status.number() == 200,
    {
        Status { code: 200 }
    }

    /// 204: the response succeeds without data.
    pub fn no_content() -> (status: Status)
        ensures
            status.number() == 204,
    {
        Status { code: 204 }
    }

    /// 500: the response fails.
    pub fn internal_server_error() -> (status: Status)
        ensures
            status.number() == 500,
    {
        Status { code: 500 }
    }

    /// The code of the status.
    pub fn code(&self) -> (code: u16)
        ensures
            code == self.number(),
            100 <= code <= 999,
    {
        proof {
            use_type_invariant(*self);
        }
        self.code
    }

    /// Whether the status is a success.
    pub fn is_success(&self) -> (success: bool)
        ensures
            success == self.succeeds(),
            success <==> 200 <= self.number() <= 299,
    {
        proof {
            use_type_invariant(*self);
        }
        code_is_success(self.code)
    }
}

} // verus!
