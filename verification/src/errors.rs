//! The proxy's error type, its mathematical model, and the HTTP status that
//! answers each error.
use vstd::prelude::*;

use crate::config::FieldType;
use crate::json::{JsonValue, JsonView};

verus! {

/// Everything that can go wrong while loading the configuration, checking a
/// request, or forwarding it. Errors raised by other libraries carry their
/// message.
#[derive(Debug)]
pub enum Error {
    /// IO-related error.
    IO(String),
    /// TOML parsing error.
    TOML(String),
    /// JSON parsing error.
    Json(String),
    /// Address parsing error.
    IpAddr(String),
    /// Certificate generation error.
    RcGen(String),
    /// Request cookie parsing error.
    Cookie(String),
    /// A body that is not UTF-8.
    ParseUtf8(String),
    /// A header value that is not visible ASCII.
    ToStr,
    /// Unsupported configuration or feature.
    NotSupported,
    /// Fallback error.
    Unknown,
    /// Request payload exceeds configured size.
    PayloadLimit,
    /// Field not found during validation.
    FieldNotFound(String),
    /// A field path that leads nowhere in the payload.
    FieldNotObject(String),
    /// Number lower than the minimum: field, value, minimum (as ordering keys).
    FieldLowerThanMinimum(String, i64, i64),
    /// Number higher than the maximum: field, value, maximum (as ordering keys).
    FieldHigherThanMaximum(String, i64, i64),
    /// Value not among the allowed ones: field, value, the first allowed value.
    FieldNotInExactList(String, JsonValue, JsonValue),
    /// Length lower than the minimum: field, length, minimum.
    FieldLengthLowerThanMinimum(String, usize, usize),
    /// Length higher than the maximum: field, length, maximum.
    FieldLengthHigherThanMaximum(String, usize, usize),
    /// Value of another JSON type than the configured one.
    FieldTypeIncorrect(String, FieldType),
    /// Request method other than the configured one: received, configured.
    InvalidMethod(String, String),
    /// Request content type other than the configured one: received, configured.
    InvalidContentType(String, String),
}

/// The mathematical model of an [`Error`].
pub enum ErrorView {
    IO(Seq<char>),
    TOML(Seq<char>),
    Json(Seq<char>),
    IpAddr(Seq<char>),
    RcGen(Seq<char>),
    Cookie(Seq<char>),
    ParseUtf8(Seq<char>),
    ToStr,
    NotSupported,
    Unknown,
    PayloadLimit,
    FieldNotFound(Seq<char>),
    FieldNotObject(Seq<char>),
    FieldLowerThanMinimum(Seq<char>, i64, i64),
    FieldHigherThanMaximum(Seq<char>, i64, i64),
    FieldNotInExactList(Seq<char>, JsonView, JsonView),
    FieldLengthLowerThanMinimum(Seq<char>, usize, usize),
    FieldLengthHigherThanMaximum(Seq<char>, usize, usize),
    FieldTypeIncorrect(Seq<char>, FieldType),
    InvalidMethod(Seq<char>, Seq<char>),
    InvalidContentType(Seq<char>, Seq<char>),
}

impl View for Error {
    type V = ErrorView;

    open spec fn view(&self) -> ErrorView {
        match self {
            Error::IO(m) => ErrorView::IO(m@),
            Error::TOML(m) => ErrorView::TOML(m@),
            Error::Json(m) => ErrorView::Json(m@),
            Error::IpAddr(m) => ErrorView::IpAddr(m@),
            Error::RcGen(m) => ErrorView::RcGen(m@),
            Error::Cookie(m) => ErrorView::Cookie(m@),
            Error::ParseUtf8(m) => ErrorView::ParseUtf8(m@),
            Error::ToStr => ErrorView::ToStr,
            Error::NotSupported => ErrorView::NotSupported,
            Error::Unknown => ErrorView::Unknown,
            Error::PayloadLimit => ErrorView::PayloadLimit,
            Error::FieldNotFound(f) => ErrorView::FieldNotFound(f@),
            Error::FieldNotObject(f) => ErrorView::FieldNotObject(f@),
            Error::FieldLowerThanMinimum(f, x, m) => ErrorView::FieldLowerThanMinimum(f@, *x, *m),
            Error::FieldHigherThanMaximum(f, x, m) => ErrorView::FieldHigherThanMaximum(f@, *x, *m),
            Error::FieldNotInExactList(f, v, e) => ErrorView::FieldNotInExactList(f@, v@, e@),
            Error::FieldLengthLowerThanMinimum(f, l, m) => ErrorView::FieldLengthLowerThanMinimum(
                f@,
                *l,
                *m,
            ),
            Error::FieldLengthHigherThanMaximum(f, l, m) => ErrorView::FieldLengthHigherThanMaximum(
                f@,
                *l,
                *m,
            ),
            Error::FieldTypeIncorrect(f, t) => ErrorView::FieldTypeIncorrect(f@, *t),
            Error::InvalidMethod(a, b) => ErrorView::InvalidMethod(a@, b@),
            Error::InvalidContentType(a, b) => ErrorView::InvalidContentType(a@, b@),
        }
    }
}

/// `r` is the outcome that the model `e` describes: `Ok` when there is no
/// error, else an error whose model is `e`.
pub open spec fn outcome_is(r: Result<(), Error>, e: Option<ErrorView>) -> bool {
    match r {
        Ok(()) => e is None,
        Err(err) => e == Some(err@),
    }
}

/// Errors caused by the request: a payload or header that breaks the rules.
pub open spec fn is_validation_error(e: ErrorView) -> bool {
    ||| e is Json
    ||| e is Cookie
    ||| e is ToStr
    ||| e is FieldNotFound
    ||| e is FieldNotObject
    ||| e is FieldLowerThanMinimum
    ||| e is FieldHigherThanMaximum
    ||| e is FieldNotInExactList
    ||| e is FieldLengthLowerThanMinimum
    ||| e is FieldLengthHigherThanMaximum
    ||| e is FieldTypeIncorrect
    ||| e is InvalidMethod
    ||| e is InvalidContentType
}

/// Errors caused by what the upstream answered.
pub open spec fn is_upstream_error(e: ErrorView) -> bool {
    e is ParseUtf8
}

impl Error {
    /// The HTTP status that answers this error: 400 for validation errors,
    /// 413 for a payload over the limit, 502 for an upstream failure, 500
    /// for internal errors.
    pub fn status_code(&self) -> (code: u16)
        ensures
            is_validation_error(self@) ==> code == 400,
            self@ is PayloadLimit ==> code == 413,
            is_upstream_error(self@) ==> code == 502,
            !is_validation_error(self@) && !(self@ is PayloadLimit) && !is_upstream_error(self@)
                ==> code == 500,
    {
        match self {
            Error::Json(_) | Error::Cookie(_) | Error::ToStr | Error::FieldNotFound(_)
            | Error::FieldNotObject(_) | Error::FieldLowerThanMinimum(..)
            | Error::FieldHigherThanMaximum(..) | Error::FieldNotInExactList(..)
            | Error::FieldLengthLowerThanMinimum(..) | Error::FieldLengthHigherThanMaximum(..)
            | Error::FieldTypeIncorrect(..) | Error::InvalidMethod(..)
            | Error::InvalidContentType(..) => 400,
            Error::PayloadLimit => 413,
            Error::ParseUtf8(_) => 502,
            Error::IO(_) | Error::TOML(_) | Error::IpAddr(_) | Error::RcGen(_)
            | Error::NotSupported | Error::Unknown => 500,
        }
    }
}

} // verus!
