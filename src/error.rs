//! The error taxonomy and the response body each error is reported with.

use vstd::prelude::*;

verus! {

pub const CONTENT_TYPE_JSON: &'static str = "application/json";

pub const ERR_MSG_BAD_ID: &'static str = "bad id";

pub const ERR_MSG_DATA_NOT_FOUND: &'static str = "data not found";

pub const ERR_MSG_DATABASE_OPERATION_FAIL: &'static str = "database operation fail";

pub const ERR_MSG_INTERNAL_SERVER_ERROR: &'static str = "internal server error";

pub const ERR_MSG_PAYLOAD_PARSE_ORDERBY_FAIL: &'static str = "parse orderby list fail";

pub const ERR_MSG_PAYLOAD_PARSE_TIME_COND_FAIL: &'static str = "parse time condition fail";

pub const STATUS_BAD_REQUEST: u16 = 400;

pub const STATUS_NOT_FOUND: u16 = 404;

pub const STATUS_INTERNAL_SERVER_ERROR: u16 = 500;

/// How the storage reports a failed operation: no row matched, or anything
/// else (connectivity, constraints).
#[derive(Debug, Clone, Copy, PartialEq, Eq, Structural)]
pub enum StorageError {
    NotFound,
    Other,
}

/// Every failure the service reports.
#[derive(Debug)]
pub enum Error {
    /// Malformed input; the message is one of the fixed payload messages.
    PayloadError(String),
    /// A failed storage operation, classified once where it left the storage.
    DatabaseError(StorageError),
    /// A path id that is not a 64-bit integer.
    BadID,
    /// The worker pool could not take or answer the request.
    Dispatch,
    /// An error with its own status code and message.
    Custom(u16, String),
}

/// The body sent back for an error: the status code and a message.
#[derive(Debug)]
pub struct ResponseError {
    pub code: u16,
    pub msg: String,
}

/// The status code and message that report `e`.
pub open spec fn spec_response(e: Error) -> (u16, Seq<char>) {
    match e {
        Error::PayloadError(m) => (STATUS_BAD_REQUEST, m@),
        Error::DatabaseError(StorageError::NotFound) => (STATUS_NOT_FOUND, ERR_MSG_DATA_NOT_FOUND@),
        Error::DatabaseError(StorageError::Other) => (
            STATUS_INTERNAL_SERVER_ERROR,
            ERR_MSG_DATABASE_OPERATION_FAIL@,
        ),
        Error::BadID => (STATUS_BAD_REQUEST, ERR_MSG_BAD_ID@),
        Error::Dispatch => (STATUS_INTERNAL_SERVER_ERROR, ERR_MSG_INTERNAL_SERVER_ERROR@),
        Error::Custom(code, m) => (code, m@),
    }
}

/// Whether `e` carries the payload message `msg`.
pub open spec fn is_payload_error(e: Error, msg: Seq<char>) -> bool {
    e matches Error::PayloadError(m) && m@ == msg
}

impl Error {
    /// A client error with the given message.
    pub fn bad_request(msg: &str) -> (r: Error)
        ensures
            r matches Error::Custom(code, m) && code == STATUS_BAD_REQUEST && m@ == msg@,
    {
        Error::Custom(STATUS_BAD_REQUEST, String::from_str(msg))
    }

    /// A malformed-input error with the given message.
    pub fn payload(msg: &str) -> (r: Error)
        ensures
            is_payload_error(r, msg@),
    {
        Error::PayloadError(String::from_str(msg))
    }

    /// Classifies a failed storage operation.
    pub fn from_storage(e: StorageError) -> (r: Error)
        ensures
            r == Error::DatabaseError(e),
    {
        Error::DatabaseError(e)
    }

    /// The response body that reports this error.
    pub fn error_response(&self) -> (r: ResponseError)
        ensures
            (r.code, r.msg@) == spec_response(*self),
    {
        match self {
            Error::PayloadError(m) => ResponseError { code: STATUS_BAD_REQUEST, msg: m.clone() },
            Error::DatabaseError(StorageError::NotFound) => ResponseError {
                code: STATUS_NOT_FOUND,
                msg: String::from_str(ERR_MSG_DATA_NOT_FOUND),
            },
            Error::DatabaseError(StorageError::Other) => ResponseError {
                code: STATUS_INTERNAL_SERVER_ERROR,
                msg: String::from_str(ERR_MSG_DATABASE_OPERATION_FAIL),
            },
            Error::BadID => ResponseError {
                code: STATUS_BAD_REQUEST,
                msg: String::from_str(ERR_MSG_BAD_ID),
            },
            Error::Dispatch => ResponseError {
                code: STATUS_INTERNAL_SERVER_ERROR,
                msg: String::from_str(ERR_MSG_INTERNAL_SERVER_ERROR),
            },
            Error::Custom(code, m) => ResponseError { code: *code, msg: m.clone() },
        }
    }
}

impl ResponseError {
    /// The HTTP status to send: the code itself where it is a valid status
    /// (100 to 599), else 500.
    pub fn status(&self) -> (r: u16)
        ensures
            r == if 100 <= self.code && self.code < 600 {
                self.code
            } else {
                STATUS_INTERNAL_SERVER_ERROR
            },
    {
        if 100 <= self.code && self.code < 600 {
            self.code
        } else {
            STATUS_INTERNAL_SERVER_ERROR
        }
    }
}

} // verus!
