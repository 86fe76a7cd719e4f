//! Requests that are refused: the kind of refusal and what the client is told.

use vstd::prelude::*;

verus! {

/// Why a request is refused. Each kind has its status.
#[derive(Debug)]
pub enum ApiError {
    BadRequest(String),
    Unauthorized(String),
    Forbidden(String),
    NotFound(String),
    UnsupportedMediaType(String),
    RangeNotSatisfiable(String),
    Internal(String),
    BadGateway(String),
    ServiceUnavailable(String),
}

/// The kinds of refusal.
#[derive(Debug, Clone, Copy, PartialEq, Eq, Structural)]
pub enum Refusal {
    BadRequest,
    Unauthorized,
    Forbidden,
    NotFound,
    UnsupportedMediaType,
    RangeNotSatisfiable,
    Internal,
    BadGateway,
    ServiceUnavailable,
}

impl ApiError {
    /// The kind of the refusal.
    pub open spec fn refusal(self) -> Refusal {
        match self {
            ApiError::BadRequest(_) => Refusal::BadRequest,
            ApiError::Unauthorized(_) => Refusal::Unauthorized,
            ApiError::Forbidden(_) => Refusal::Forbidden,
            ApiError::NotFound(_) => Refusal::NotFound,
            ApiError::UnsupportedMediaType(_) => Refusal::UnsupportedMediaType,
            ApiError::RangeNotSatisfiable(_) => Refusal::RangeNotSatisfiable,
            ApiError::Internal(_) => Refusal::Internal,
            ApiError::BadGateway(_) => Refusal::BadGateway,
            ApiError::ServiceUnavailable(_) => Refusal::ServiceUnavailable,
        }
    }

    /// What the client is told.
    pub open spec fn text(self) -> Seq<char> {
        match self {
            ApiError::BadRequest(m) => m@,
            ApiError::Unauthorized(m) => m@,
            ApiError::Forbidden(m) => m@,
            ApiError::NotFound(m) => m@,
            ApiError::UnsupportedMediaType(m) => m@,
            ApiError::RangeNotSatisfiable(m) => m@,
            ApiError::Internal(m) => m@,
            ApiError::BadGateway(m) => m@,
            ApiError::ServiceUnavailable(m) => m@,
        }
    }

    /// Whether this is a refusal of that kind with that text.
    pub open spec fn says(self, kind: Refusal, text: Seq<char>) -> bool {
        self.refusal() == kind && self.text() == text
    }

    /// The HTTP status.
    pub fn status(&self) -> (r: u16)
        ensures
            r == (match self.refusal() {
                Refusal::BadRequest => 400u16,
                Refusal::Unauthorized => 401,
                Refusal::Forbidden => 403,
                Refusal::NotFound => 404,
                Refusal::UnsupportedMediaType => 415,
                Refusal::RangeNotSatisfiable => 416,
                Refusal::Internal => 500,
                Refusal::BadGateway => 502,
                Refusal::ServiceUnavailable => 503,
            }),
    {
        match self {
            ApiError::BadRequest(_) => 400,
            ApiError::Unauthorized(_) => 401,
            ApiError::Forbidden(_) => 403,
            ApiError::NotFound(_) => 404,
            ApiError::UnsupportedMediaType(_) => 415,
            ApiError::RangeNotSatisfiable(_) => 416,
            ApiError::Internal(_) => 500,
            ApiError::BadGateway(_) => 502,
            ApiError::ServiceUnavailable(_) => 503,
        }
    }

    /// What the client is told.
    pub fn message(&self) -> (r: String)
        ensures
            r@ == self.text(),
    {
        match self {
            ApiError::BadRequest(m) => m.clone(),
            ApiError::Unauthorized(m) => m.clone(),
            ApiError::Forbidden(m) => m.clone(),
            ApiError::NotFound(m) => m.clone(),
            ApiError::UnsupportedMediaType(m) => m.clone(),
            ApiError::RangeNotSatisfiable(m) => m.clone(),
            ApiError::Internal(m) => m.clone(),
            ApiError::BadGateway(m) => m.clone(),
            ApiError::ServiceUnavailable(m) => m.clone(),
        }
    }
}

/// What came of fetching something from the store.
#[derive(Debug)]
pub enum Fetched<T> {
    Found(T),
    Missing,
    Failed(String),
}

/// Whether `r` is what a fetch amounts to: the thing, `missing` where there is
/// none, and the store's own words where it failed.
pub open spec fn fetch_result<T>(r: Result<T, ApiError>, f: Fetched<T>, missing: Seq<char>) -> bool {
    match f {
        Fetched::Found(x) => r == Ok::<T, ApiError>(x),
        Fetched::Missing => r matches Err(e) && e.says(Refusal::NotFound, missing),
        Fetched::Failed(m) => r matches Err(e) && e.says(Refusal::Internal, m@),
    }
}

/// Turns what came of a fetch into a result.
pub fn require_found<T>(f: Fetched<T>, missing: &str) -> (r: Result<T, ApiError>)
    ensures
        fetch_result(r, f, missing@),
{
    match f {
        Fetched::Found(x) => Ok(x),
        Fetched::Missing => Err(ApiError::NotFound(missing.to_owned())),
        Fetched::Failed(m) => Err(ApiError::Internal(m)),
    }
}

/// What was found is handed on; what is missing is not found, in the words for
/// it; and a store that failed is a fault of the server, in its own words.
pub proof fn law_fetches_are_answered<T>(r: Result<T, ApiError>, x: T, m: String, missing: Seq<char>)
    ensures
        fetch_result(r, Fetched::Found(x), missing) ==> (r matches Ok(y) && y == x),
        fetch_result(r, Fetched::Missing, missing) ==> (r matches Err(e) && e.says(
            Refusal::NotFound,
            missing,
        )),
        fetch_result(r, Fetched::Failed(m), missing) ==> (r matches Err(e) && e.says(
            Refusal::Internal,
            m@,
        )),
{
}

} // verus!
