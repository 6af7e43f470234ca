//! The application error taxonomy and its mapping to the wire: each variant
//! has a fixed status code and machine-readable code, and the three sourcing
//! failures collapse into the single `QUOTE_SOURCING_ERROR` code on purpose;
//! callers cannot act on the finer distinction, which stays in server logs.

use vstd::prelude::*;
use vstd::string::StringExecFns;
use crate::responses::ErrorResponse;
use crate::service::{QuoteServiceError, ServiceErrorView};

verus! {

/// The mathematical value of an [`AppError`].
pub ghost enum AppErrorView {
    InternalServerError(Seq<char>),
    NotFound(Seq<char>),
    BadRequest(Seq<char>),
    QuoteSourcingError(Seq<char>),
}

/// All errors the service can hand to the HTTP boundary, each carrying its
/// client-visible message.
#[derive(Debug)]
pub enum AppError {
    /// An unexpected internal fault.
    InternalServerError(String),
    /// A requested resource that is not there: an empty collection, or an id
    /// with no record.
    NotFound(String),
    /// Malformed client input, e.g. an id that is not an unsigned integer.
    BadRequest(String),
    /// Any failure while sourcing the quote collection.
    QuoteSourcingError(String),
}

impl View for AppError {
    type V = AppErrorView;

    open spec fn view(&self) -> AppErrorView {
        match self {
            AppError::InternalServerError(m) => AppErrorView::InternalServerError(m@),
            AppError::NotFound(m) => AppErrorView::NotFound(m@),
            AppError::BadRequest(m) => AppErrorView::BadRequest(m@),
            AppError::QuoteSourcingError(m) => AppErrorView::QuoteSourcingError(m@),
        }
    }
}

/// How a sourcing failure is absorbed: every kind becomes a
/// `QuoteSourcingError`, with a message naming the kind.
pub open spec fn app_error_of_service(e: ServiceErrorView) -> AppErrorView {
    match e {
        ServiceErrorView::FileNotFound(p) => AppErrorView::QuoteSourcingError(
            "Quote data file not found: "@ + p,
        ),
        ServiceErrorView::FileReadError(m) => AppErrorView::QuoteSourcingError(
            "Error reading quote data file: "@ + m,
        ),
        ServiceErrorView::ParseError(m) => AppErrorView::QuoteSourcingError(
            "Error parsing quote data: "@ + m,
        ),
    }
}

/// The HTTP status of an error.
pub open spec fn app_error_status(e: AppErrorView) -> int {
    match e {
        AppErrorView::InternalServerError(_) => 500,
        AppErrorView::NotFound(_) => 404,
        AppErrorView::BadRequest(_) => 400,
        AppErrorView::QuoteSourcingError(_) => 500,
    }
}

/// The machine-readable code of an error.
pub open spec fn app_error_code(e: AppErrorView) -> Seq<char> {
    match e {
        AppErrorView::InternalServerError(_) => "INTERNAL_SERVER_ERROR"@,
        AppErrorView::NotFound(_) => "NOT_FOUND"@,
        AppErrorView::BadRequest(_) => "BAD_REQUEST"@,
        AppErrorView::QuoteSourcingError(_) => "QUOTE_SOURCING_ERROR"@,
    }
}

/// The client-visible message of an error.
pub open spec fn app_error_message(e: AppErrorView) -> Seq<char> {
    match e {
        AppErrorView::InternalServerError(m) => m,
        AppErrorView::NotFound(m) => m,
        AppErrorView::BadRequest(m) => m,
        AppErrorView::QuoteSourcingError(m) => m,
    }
}

/// The display line of an error, naming its category.
pub open spec fn app_error_display(e: AppErrorView) -> Seq<char> {
    match e {
        AppErrorView::InternalServerError(m) => "Internal Server Error: "@ + m,
        AppErrorView::NotFound(m) => "Not Found: "@ + m,
        AppErrorView::BadRequest(m) => "Bad Request: "@ + m,
        AppErrorView::QuoteSourcingError(m) => "Quote Sourcing Error: "@ + m,
    }
}

impl AppError {
    /// Absorbs a sourcing failure, collapsing its kind into the single
    /// sourcing code while keeping the kind in the message.
    pub fn from(err: QuoteServiceError) -> (r: AppError)
        ensures
            r@ == app_error_of_service(err@),
    {
        match err {
            QuoteServiceError::FileNotFound(path) => {
                let mut s = "Quote data file not found: ".to_owned();
                s.append(path.as_str());
                AppError::QuoteSourcingError(s)
            },
            QuoteServiceError::FileReadError(m) => {
                let mut s = "Error reading quote data file: ".to_owned();
                s.append(m.as_str());
                AppError::QuoteSourcingError(s)
            },
            QuoteServiceError::ParseError(m) => {
                let mut s = "Error parsing quote data: ".to_owned();
                s.append(m.as_str());
                AppError::QuoteSourcingError(s)
            },
        }
    }

    /// Absorbs the description of an input/output fault met while sourcing.
    pub fn from_io_message(msg: &str) -> (r: AppError)
        ensures
            r@ == AppErrorView::QuoteSourcingError("IO error: "@ + msg@),
    {
        let mut s = "IO error: ".to_owned();
        s.append(msg);
        AppError::QuoteSourcingError(s)
    }

    /// The display line of this error, naming its category.
    pub fn display_string(&self) -> (r: String)
        ensures
            r@ == app_error_display(self@),
    {
        match self {
            AppError::InternalServerError(m) => {
                let mut s = "Internal Server Error: ".to_owned();
                s.append(m.as_str());
                s
            },
            AppError::NotFound(m) => {
                let mut s = "Not Found: ".to_owned();
                s.append(m.as_str());
                s
            },
            AppError::BadRequest(m) => {
                let mut s = "Bad Request: ".to_owned();
                s.append(m.as_str());
                s
            },
            AppError::QuoteSourcingError(m) => {
                let mut s = "Quote Sourcing Error: ".to_owned();
                s.append(m.as_str());
                s
            },
        }
    }

    /// The wire form of this error: its HTTP status and the error body with
    /// its fixed code and its message.
    pub fn into_response_parts(self) -> (r: (u16, ErrorResponse))
        ensures
            r.0 as int == app_error_status(self@),
            r.1.error_code@ == app_error_code(self@),
            r.1.message@ == app_error_message(self@),
    {
        match self {
            AppError::InternalServerError(m) => (
                500,
                ErrorResponse { error_code: "INTERNAL_SERVER_ERROR".to_owned(), message: m },
            ),
            AppError::NotFound(m) => (
                404,
                ErrorResponse { error_code: "NOT_FOUND".to_owned(), message: m },
            ),
            AppError::BadRequest(m) => (
                400,
                ErrorResponse { error_code: "BAD_REQUEST".to_owned(), message: m },
            ),
            AppError::QuoteSourcingError(m) => (
                500,
                ErrorResponse { error_code: "QUOTE_SOURCING_ERROR".to_owned(), message: m },
            ),
        }
    }
}

} // verus!
