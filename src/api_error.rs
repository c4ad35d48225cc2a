//! The error body that handlers return, and the HTTP status of each kind.
use vstd::prelude::*;

verus! {

/// The kinds of errors a handler reports.
#[derive(Debug, Clone, Copy, PartialEq, Eq, Structural)]
pub enum ErrorCode {
    BadRequest,
    Unauthorized,
    PaymentRequired,
    Forbidden,
    NotFound,
    Conflict,
    TooManyRequests,
    UnexpectedError,
}

/// The HTTP status that answers each kind of error.
pub open spec fn status_of(c: ErrorCode) -> u16 {
    match c {
        ErrorCode::BadRequest => 400,
        ErrorCode::Unauthorized => 401,
        ErrorCode::PaymentRequired => 402,
        ErrorCode::Forbidden => 403,
        ErrorCode::NotFound => 404,
        ErrorCode::Conflict => 409,
        ErrorCode::TooManyRequests => 429,
        ErrorCode::UnexpectedError => 500,
    }
}

/// The name each kind of error is shown under.
pub open spec fn code_name(c: ErrorCode) -> Seq<char> {
    match c {
        ErrorCode::BadRequest => "BadRequest"@,
        ErrorCode::Unauthorized => "Unauthorized"@,
        ErrorCode::PaymentRequired => "PaymentRequired"@,
        ErrorCode::Forbidden => "Forbidden"@,
        ErrorCode::NotFound => "NotFound"@,
        ErrorCode::Conflict => "Conflict"@,
        ErrorCode::TooManyRequests => "TooManyRequests"@,
        ErrorCode::UnexpectedError => "UnexpectedError"@,
    }
}

/// How an error reads: `<code>: '<message>'`, or the code alone.
pub open spec fn error_text(code: ErrorCode, message: Option<Seq<char>>) -> Seq<char> {
    match message {
        Some(m) => code_name(code) + ": '"@ + m + "'"@,
        None => code_name(code),
    }
}

impl ErrorCode {
    /// The name of the kind, as it is shown.
    pub fn name(&self) -> (r: &'static str)
        ensures
            r@ == code_name(*self),
    {
        match self {
            ErrorCode::BadRequest => "BadRequest",
            ErrorCode::Unauthorized => "Unauthorized",
            ErrorCode::PaymentRequired => "PaymentRequired",
            ErrorCode::Forbidden => "Forbidden",
            ErrorCode::NotFound => "NotFound",
            ErrorCode::Conflict => "Conflict",
            ErrorCode::TooManyRequests => "TooManyRequests",
            ErrorCode::UnexpectedError => "UnexpectedError",
        }
    }

    pub fn http_status(&self) -> (r: u16)
        ensures
            r == status_of(*self),
    {
        match self {
            ErrorCode::BadRequest => 400,
            ErrorCode::Unauthorized => 401,
            ErrorCode::PaymentRequired => 402,
            ErrorCode::Forbidden => 403,
            ErrorCode::NotFound => 404,
            ErrorCode::Conflict => 409,
            ErrorCode::TooManyRequests => 429,
            ErrorCode::UnexpectedError => 500,
        }
    }
}

/// An error as the client sees it: a kind, and optionally a message and details.
#[derive(Debug, Clone, PartialEq, Eq)]
pub struct ApiError {
    pub code: ErrorCode,
    pub message: Option<String>,
    pub details: Option<String>,
}

/// Assembles an [`ApiError`] field by field.
#[derive(Debug)]
pub struct ApiErrorBuilder {
    code: ErrorCode,
    message: Option<String>,
    details: Option<String>,
}

impl ApiErrorBuilder {
    pub closed spec fn spec_code(&self) -> ErrorCode {
        self.code
    }

    pub closed spec fn spec_message(&self) -> Option<String> {
        self.message
    }

    pub closed spec fn spec_details(&self) -> Option<String> {
        self.details
    }

    pub fn new(code: ErrorCode) -> (r: Self)
        ensures
            r.spec_code() == code,
            r.spec_message() is None,
            r.spec_details() is None,
    {
        ApiErrorBuilder { code, message: None, details: None }
    }

    pub fn message(self, v: String) -> (r: Self)
        ensures
            r.spec_code() == self.spec_code(),
            r.spec_message() == Some(v),
            r.spec_details() == self.spec_details(),
    {
        ApiErrorBuilder { message: Some(v), ..self }
    }

    pub fn details(self, v: String) -> (r: Self)
        ensures
            r.spec_code() == self.spec_code(),
            r.spec_message() == self.spec_message(),
            r.spec_details() == Some(v),
    {
        ApiErrorBuilder { details: Some(v), ..self }
    }

    pub fn build(self) -> (r: ApiError)
        ensures
            r.code == self.spec_code(),
            r.message == self.spec_message(),
            r.details == self.spec_details(),
    {
        ApiError { code: self.code, message: self.message, details: self.details }
    }
}

impl ApiError {
    pub fn builder(code: ErrorCode) -> (r: ApiErrorBuilder)
        ensures
            r.spec_code() == code,
            r.spec_message() is None,
            r.spec_details() is None,
    {
        ApiErrorBuilder::new(code)
    }

    pub fn bad_reques() -> (r: ApiErrorBuilder)
        ensures
            r.spec_code() == ErrorCode::BadRequest,
            r.spec_message() is None,
            r.spec_details() is None,
    {
        Self::builder(ErrorCode::BadRequest)
    }

    pub fn unauthorized() -> (r: ApiErrorBuilder)
        ensures
            r.spec_code() == ErrorCode::Unauthorized,
            r.spec_message() is None,
            r.spec_details() is None,
    {
        Self::builder(ErrorCode::Unauthorized)
    }

    pub fn payment_required() -> (r: ApiErrorBuilder)
        ensures
            r.spec_code() == ErrorCode::PaymentRequired,
            r.spec_message() is None,
            r.spec_details() is None,
    {
        Self::builder(ErrorCode::PaymentRequired)
    }

    pub fn forbidden() -> (r: ApiErrorBuilder)
        ensures
            r.spec_code() == ErrorCode::Forbidden,
            r.spec_message() is None,
            r.spec_details() is None,
    {
        Self::builder(ErrorCode::Forbidden)
    }

    pub fn not_found() -> (r: ApiErrorBuilder)
        ensures
            r.spec_code() == ErrorCode::NotFound,
            r.spec_message() is None,
            r.spec_details() is None,
    {
        Self::builder(ErrorCode::NotFound)
    }

    pub fn conflict() -> (r: ApiErrorBuilder)
        ensures
            r.spec_code() == ErrorCode::Conflict,
            r.spec_message() is None,
            r.spec_details() is None,
    {
        Self::builder(ErrorCode::Conflict)
    }

    pub fn too_many_requests() -> (r: ApiErrorBuilder)
        ensures
            r.spec_code() == ErrorCode::TooManyRequests,
            r.spec_message() is None,
            r.spec_details() is None,
    {
        Self::builder(ErrorCode::TooManyRequests)
    }

    pub fn unexpected() -> (r: ApiErrorBuilder)
        ensures
            r.spec_code() == ErrorCode::UnexpectedError,
            r.spec_message() is None,
            r.spec_details() is None,
    {
        Self::builder(ErrorCode::UnexpectedError)
    }

    /// Details are kept out of errors that leave a release build.
    pub fn make_details(details: Option<String>) -> (r: Option<String>)
        ensures
            r is None,
    {
        None
    }

    /// The details of an underlying error, as a release build reports
    /// them: not at all.
    pub fn to_details<T>(error: T) -> (r: Option<String>)
        ensures
            r is None,
    {
        None
    }

    /// An unexpected error caused by `error`, whose details are kept out of
    /// the response.
    pub fn from_details<T>(error: T) -> (r: ApiError)
        ensures
            r.code == ErrorCode::UnexpectedError,
            r.message is None,
            r.details is None,
    {
        ApiError { code: ErrorCode::UnexpectedError, message: None, details: Self::to_details(error) }
    }

    /// How the error reads to a person.
    pub fn to_text(&self) -> (r: String)
        ensures
            r@ == error_text(
                self.code,
                match self.message {
                    Some(m) => Some(m@),
                    None => None,
                },
            ),
    {
        let mut out = String::from_str(self.code.name());
        match &self.message {
            Some(m) => {
                out.append(": '");
                out.append(m.as_str());
                out.append("'");
            },
            None => {},
        }
        out
    }

    /// The HTTP status of the response that carries this error.
    pub fn status_code(&self) -> (r: u16)
        ensures
            r == status_of(self.code),
    {
        self.code.http_status()
    }
}

impl vstd::std_specs::convert::FromSpecImpl<ApiErrorBuilder> for ApiError {
    open spec fn obeys_from_spec() -> bool {
        true
    }

    open spec fn from_spec(v: ApiErrorBuilder) -> ApiError {
        ApiError { code: v.spec_code(), message: v.spec_message(), details: v.spec_details() }
    }
}

impl From<ApiErrorBuilder> for ApiError {
    fn from(value: ApiErrorBuilder) -> (r: ApiError) {
        value.build()
    }
}

} // verus!
