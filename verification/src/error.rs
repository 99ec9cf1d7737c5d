//! Errors of the daemon and how they are answered.
use vstd::prelude::*;
use crate::text;

verus! {

/// Every error in the daemon. Errors of outer services carry their text.
#[derive(Debug, Clone, PartialEq, Eq)]
pub enum AppError {
    Docker(String),
    ServerNotFound,
    Unauthorized(String),
    Forbidden(String),
    BadRequest(String),
    Unprocessable(String),
    Conflict(String),
    PayloadTooLarge,
    BadGateway(String),
    Io(String),
    Internal(String),
    Config(String),
    Remote(String),
    NotImplemented(String),
}

pub type AppResult<T> = Result<T, AppError>;

/// `e` is a bad request with this message.
pub open spec fn is_bad_request(e: AppError, message: Seq<char>) -> bool {
    e matches AppError::BadRequest(m) && m@ == message
}

/// `e` is an unauthorized answer with this message.
pub open spec fn is_unauthorized(e: AppError, message: Seq<char>) -> bool {
    e matches AppError::Unauthorized(m) && m@ == message
}

/// `e` is a forbidden answer with this message.
pub open spec fn is_forbidden(e: AppError, message: Seq<char>) -> bool {
    e matches AppError::Forbidden(m) && m@ == message
}

/// `e` is a conflict with this message.
pub open spec fn is_conflict(e: AppError, message: Seq<char>) -> bool {
    e matches AppError::Conflict(m) && m@ == message
}

/// `e` is an unprocessable entity with this message.
pub open spec fn is_unprocessable(e: AppError, message: Seq<char>) -> bool {
    e matches AppError::Unprocessable(m) && m@ == message
}

/// `e` is a failed panel request with this message.
pub open spec fn is_remote(e: AppError, message: Seq<char>) -> bool {
    e matches AppError::Remote(m) && m@ == message
}

impl AppError {
    /// The text of the error.
    pub open spec fn text(&self) -> Seq<char> {
        match self {
            AppError::Docker(s) => "docker error: "@ + s@,
            AppError::ServerNotFound => "server not found"@,
            AppError::Unauthorized(s) => "unauthorized: "@ + s@,
            AppError::Forbidden(s) => "forbidden: "@ + s@,
            AppError::BadRequest(s) => "bad request: "@ + s@,
            AppError::Unprocessable(s) => "unprocessable entity: "@ + s@,
            AppError::Conflict(s) => "conflict: "@ + s@,
            AppError::PayloadTooLarge => "payload too large"@,
            AppError::BadGateway(s) => "bad gateway: "@ + s@,
            AppError::Io(s) => "io error: "@ + s@,
            AppError::Internal(s) => "internal error: "@ + s@,
            AppError::Config(s) => "config error: "@ + s@,
            AppError::Remote(s) => "panel request failed: "@ + s@,
            AppError::NotImplemented(s) => "not implemented: "@ + s@,
        }
    }

    /// The HTTP status the error is answered with.
    pub open spec fn status_code(&self) -> u16 {
        match self {
            AppError::ServerNotFound => 404,
            AppError::Unauthorized(_) => 401,
            AppError::Forbidden(_) => 403,
            AppError::BadRequest(_) => 400,
            AppError::Unprocessable(_) => 422,
            AppError::Conflict(_) => 409,
            AppError::PayloadTooLarge => 413,
            AppError::BadGateway(_) => 502,
            AppError::Docker(_) | AppError::Io(_) | AppError::Internal(_) | AppError::Config(_)
            | AppError::Remote(_) | AppError::NotImplemented(_) => 500,
        }
    }

    /// The message a client sees: the error itself below 500, nothing of it
    /// from 500 on.
    pub open spec fn public_text(&self) -> Seq<char> {
        if self is ServerNotFound {
            "The requested resource does not exist on this instance."@
        } else if self.status_code() >= 500 {
            "internal server error"@
        } else {
            self.text()
        }
    }

    /// The text of the error.
    pub fn message(&self) -> (r: String)
        ensures
            r@ == self.text(),
    {
        match self {
            AppError::Docker(s) => text::cat("docker error: ", s.as_str()),
            AppError::ServerNotFound => "server not found".to_owned(),
            AppError::Unauthorized(s) => text::cat("unauthorized: ", s.as_str()),
            AppError::Forbidden(s) => text::cat("forbidden: ", s.as_str()),
            AppError::BadRequest(s) => text::cat("bad request: ", s.as_str()),
            AppError::Unprocessable(s) => text::cat("unprocessable entity: ", s.as_str()),
            AppError::Conflict(s) => text::cat("conflict: ", s.as_str()),
            AppError::PayloadTooLarge => "payload too large".to_owned(),
            AppError::BadGateway(s) => text::cat("bad gateway: ", s.as_str()),
            AppError::Io(s) => text::cat("io error: ", s.as_str()),
            AppError::Internal(s) => text::cat("internal error: ", s.as_str()),
            AppError::Config(s) => text::cat("config error: ", s.as_str()),
            AppError::Remote(s) => text::cat("panel request failed: ", s.as_str()),
            AppError::NotImplemented(s) => text::cat("not implemented: ", s.as_str()),
        }
    }

    /// The status to answer with.
    pub fn status(&self) -> (r: u16)
        ensures
            r == self.status_code(),
    {
        match self {
            AppError::ServerNotFound => 404,
            AppError::Unauthorized(_) => 401,
            AppError::Forbidden(_) => 403,
            AppError::BadRequest(_) => 400,
            AppError::Unprocessable(_) => 422,
            AppError::Conflict(_) => 409,
            AppError::PayloadTooLarge => 413,
            AppError::BadGateway(_) => 502,
            AppError::Docker(_) | AppError::Io(_) | AppError::Internal(_) | AppError::Config(_)
            | AppError::Remote(_) | AppError::NotImplemented(_) => 500,
        }
    }

    /// What is sent to the client: status, message, and whether the error is
    /// logged instead of shown.
    pub fn into_response(&self) -> (r: (u16, String, bool))
        ensures
            r.0 == self.status_code(),
            r.1@ == self.public_text(),
            r.2 == (self.status_code() >= 500),
    {
        let status: u16 = self.status();
        if status == 404 {
            (
                status,
                "The requested resource does not exist on this instance.".to_owned(),
                false,
            )
        } else if status >= 500 {
            (status, "internal server error".to_owned(), true)
        } else {
            (status, self.message(), false)
        }
    }
}

/// An answer of the 5xx class is the same whatever the error carries.
pub proof fn law_server_errors_reveal_nothing(a: AppError, b: AppError)
    requires
        a.status_code() >= 500,
        b.status_code() >= 500,
    ensures
        a.public_text() == b.public_text(),
{
}

/// The statuses that errors are answered with.
pub proof fn law_statuses(s: String)
    ensures
        AppError::ServerNotFound.status_code() == 404,
        AppError::Unauthorized(s).status_code() == 401,
        AppError::Forbidden(s).status_code() == 403,
        AppError::BadRequest(s).status_code() == 400,
        AppError::Unprocessable(s).status_code() == 422,
        AppError::Conflict(s).status_code() == 409,
        AppError::PayloadTooLarge.status_code() == 413,
        AppError::BadGateway(s).status_code() == 502,
        AppError::Docker(s).status_code() == 500,
        AppError::Io(s).status_code() == 500,
        AppError::Internal(s).status_code() == 500,
        AppError::Config(s).status_code() == 500,
        AppError::Remote(s).status_code() == 500,
        AppError::NotImplemented(s).status_code() == 500,
{
}

/// What clients see of errors: what they did wrong, and of what went wrong here
/// nothing.
pub proof fn law_what_clients_see(s: String)
    ensures
        AppError::ServerNotFound.public_text()
            == "The requested resource does not exist on this instance."@,
        AppError::Unauthorized(s).public_text() == "unauthorized: "@ + s@,
        AppError::Forbidden(s).public_text() == "forbidden: "@ + s@,
        AppError::BadRequest(s).public_text() == "bad request: "@ + s@,
        AppError::Unprocessable(s).public_text() == "unprocessable entity: "@ + s@,
        AppError::Conflict(s).public_text() == "conflict: "@ + s@,
        AppError::PayloadTooLarge.public_text() == "payload too large"@,
        AppError::BadGateway(s).public_text() == "internal server error"@,
        AppError::Docker(s).public_text() == "internal server error"@,
        AppError::Io(s).public_text() == "internal server error"@,
        AppError::Internal(s).public_text() == "internal server error"@,
        AppError::Config(s).public_text() == "internal server error"@,
        AppError::Remote(s).public_text() == "internal server error"@,
        AppError::NotImplemented(s).public_text() == "internal server error"@,
{
}

/// An error is of a kind and has a message exactly if it is one of that kind with that
/// message.
pub proof fn law_kinds_of_errors(e: AppError, message: Seq<char>)
    ensures
        is_bad_request(e, message) <==> (e matches AppError::BadRequest(m) && m@ == message),
        is_unauthorized(e, message) <==> (e matches AppError::Unauthorized(m) && m@ == message),
        is_forbidden(e, message) <==> (e matches AppError::Forbidden(m) && m@ == message),
        is_conflict(e, message) <==> (e matches AppError::Conflict(m) && m@ == message),
        is_unprocessable(e, message) <==> (e matches AppError::Unprocessable(m) && m@ == message),
        is_remote(e, message) <==> (e matches AppError::Remote(m) && m@ == message),
{
}

} // verus!
