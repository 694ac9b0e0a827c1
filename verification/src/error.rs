//! The error every operation reports, and the HTTP answer that each error gets:
//! a status code, a stable machine code, a message, numeric details, and for
//! unsatisfiable ranges a `Content-Range` value.
use vstd::prelude::*;

use crate::number::{decimal, decimal_string};

verus! {

/// Why a request failed. The variants that wrap a failure of a database,
/// the file system or another service carry that failure's message.
#[derive(Debug)]
pub enum AppError {
    Unauthorized,
    PendingApproval,
    Forbidden,
    NotFound,
    Validation(String),
    PayloadTooLarge { received: u64, limit: u64 },
    InsufficientStorage { available: u64, required: u64 },
    OffsetConflict { expected: u64 },
    PreviewUnavailable,
    RangeNotSatisfiable { size: u64 },
    AuthUnavailable,
    Database(String),
    Io(String),
    Multipart { status: u16, message: String },
    Other(String),
}

pub type AppResult<T> = Result<T, AppError>;

/// `e` is a validation failure whose message is `msg`.
pub open spec fn is_validation(e: AppError, msg: Seq<char>) -> bool {
    e matches AppError::Validation(m) && m@ == msg
}

/// The HTTP status that answers `e`.
pub open spec fn spec_status(e: AppError) -> u16 {
    match e {
        AppError::Unauthorized => 401,
        AppError::PendingApproval => 403,
        AppError::Forbidden => 403,
        AppError::NotFound => 404,
        AppError::Validation(_) => 400,
        AppError::PayloadTooLarge { .. } => 413,
        AppError::InsufficientStorage { .. } => 507,
        AppError::OffsetConflict { .. } => 409,
        AppError::PreviewUnavailable => 415,
        AppError::RangeNotSatisfiable { .. } => 416,
        AppError::AuthUnavailable => 503,
        AppError::Multipart { status, .. } => status,
        AppError::Database(_) | AppError::Io(_) | AppError::Other(_) => 500,
    }
}

/// The machine-readable code in the error body for `e`.
pub open spec fn spec_code(e: AppError) -> Seq<char> {
    match e {
        AppError::Unauthorized => "AUTH_REQUIRED"@,
        AppError::PendingApproval => "ACCOUNT_PENDING"@,
        AppError::Forbidden => "FORBIDDEN"@,
        AppError::NotFound => "NOT_FOUND"@,
        AppError::Validation(_) => "VALIDATION_ERROR"@,
        AppError::PayloadTooLarge { .. } => "PAYLOAD_TOO_LARGE"@,
        AppError::InsufficientStorage { .. } => "INSUFFICIENT_STORAGE"@,
        AppError::OffsetConflict { .. } => "UPLOAD_OFFSET_CONFLICT"@,
        AppError::PreviewUnavailable => "PREVIEW_UNAVAILABLE"@,
        AppError::RangeNotSatisfiable { .. } => "RANGE_NOT_SATISFIABLE"@,
        AppError::AuthUnavailable => "AUTH_UNAVAILABLE"@,
        AppError::Multipart { .. } => "MULTIPART_ERROR"@,
        AppError::Database(_) | AppError::Io(_) | AppError::Other(_) => "INTERNAL_ERROR"@,
    }
}

/// Whether `e` is a failure of the server itself, whose details stay private.
pub open spec fn is_internal(e: AppError) -> bool {
    e is Database || e is Io || e is Other
}

/// The human-readable description of `e`.
pub open spec fn spec_message(e: AppError) -> Seq<char> {
    match e {
        AppError::Unauthorized => "authentication is required"@,
        AppError::PendingApproval => "your account is waiting for approval"@,
        AppError::Forbidden => "you do not have permission for this action"@,
        AppError::NotFound => "the requested record was not found"@,
        AppError::Validation(m) => m@,
        AppError::PayloadTooLarge { .. } => "upload exceeds the allowed size"@,
        AppError::InsufficientStorage { .. } => "insufficient storage space for this upload"@,
        AppError::OffsetConflict { .. } => "the upload offset does not match the server offset"@,
        AppError::PreviewUnavailable => "this file cannot be previewed safely"@,
        AppError::RangeNotSatisfiable { .. } => "the requested byte range is not satisfiable"@,
        AppError::AuthUnavailable => "authentication service is unavailable"@,
        AppError::Database(m) => m@,
        AppError::Io(m) => m@,
        AppError::Multipart { message, .. } => message@,
        AppError::Other(m) => m@,
    }
}

/// The named numbers in the `detail` object of the error body for `e`.
pub open spec fn spec_detail(e: AppError) -> Seq<(Seq<char>, u64)> {
    match e {
        AppError::PayloadTooLarge { received, limit } => seq![("received"@, received), ("limit"@, limit)],
        AppError::InsufficientStorage { available, required } => seq![("available"@, available), ("required"@, required)],
        AppError::OffsetConflict { expected } => seq![("expectedOffset"@, expected)],
        AppError::RangeNotSatisfiable { size } => seq![("size"@, size)],
        _ => Seq::empty(),
    }
}

impl AppError {
    /// The HTTP status code of the response to this error.
    pub fn status(&self) -> (r: u16)
        ensures
            r == spec_status(*self),
    {
        match self {
            AppError::Unauthorized => 401,
            AppError::PendingApproval => 403,
            AppError::Forbidden => 403,
            AppError::NotFound => 404,
            AppError::Validation(_) => 400,
            AppError::PayloadTooLarge { .. } => 413,
            AppError::InsufficientStorage { .. } => 507,
            AppError::OffsetConflict { .. } => 409,
            AppError::PreviewUnavailable => 415,
            AppError::RangeNotSatisfiable { .. } => 416,
            AppError::AuthUnavailable => 503,
            AppError::Multipart { status, .. } => *status,
            AppError::Database(_) | AppError::Io(_) | AppError::Other(_) => 500,
        }
    }

    /// The stable code that clients match on.
    pub fn code(&self) -> (r: &'static str)
        ensures
            r@ == spec_code(*self),
    {
        match self {
            AppError::Unauthorized => "AUTH_REQUIRED",
            AppError::PendingApproval => "ACCOUNT_PENDING",
            AppError::Forbidden => "FORBIDDEN",
            AppError::NotFound => "NOT_FOUND",
            AppError::Validation(_) => "VALIDATION_ERROR",
            AppError::PayloadTooLarge { .. } => "PAYLOAD_TOO_LARGE",
            AppError::InsufficientStorage { .. } => "INSUFFICIENT_STORAGE",
            AppError::OffsetConflict { .. } => "UPLOAD_OFFSET_CONFLICT",
            AppError::PreviewUnavailable => "PREVIEW_UNAVAILABLE",
            AppError::RangeNotSatisfiable { .. } => "RANGE_NOT_SATISFIABLE",
            AppError::AuthUnavailable => "AUTH_UNAVAILABLE",
            AppError::Multipart { .. } => "MULTIPART_ERROR",
            AppError::Database(_) | AppError::Io(_) | AppError::Other(_) => "INTERNAL_ERROR",
        }
    }

    /// The description of this error (what `to_string` gives).
    pub fn message(&self) -> (r: String)
        ensures
            r@ == spec_message(*self),
    {
        match self {
            AppError::Unauthorized => String::from_str("authentication is required"),
            AppError::PendingApproval => String::from_str("your account is waiting for approval"),
            AppError::Forbidden => String::from_str("you do not have permission for this action"),
            AppError::NotFound => String::from_str("the requested record was not found"),
            AppError::Validation(m) => m.clone(),
            AppError::PayloadTooLarge { .. } => String::from_str("upload exceeds the allowed size"),
            AppError::InsufficientStorage { .. } => String::from_str(
                "insufficient storage space for this upload",
            ),
            AppError::OffsetConflict { .. } => String::from_str(
                "the upload offset does not match the server offset",
            ),
            AppError::PreviewUnavailable => String::from_str("this file cannot be previewed safely"),
            AppError::RangeNotSatisfiable { .. } => String::from_str(
                "the requested byte range is not satisfiable",
            ),
            AppError::AuthUnavailable => String::from_str("authentication service is unavailable"),
            AppError::Database(m) => m.clone(),
            AppError::Io(m) => m.clone(),
            AppError::Multipart { message, .. } => message.clone(),
            AppError::Other(m) => m.clone(),
        }
    }

    /// The message placed in the response body: internal failures are
    /// answered with a fixed sentence that reveals nothing of their cause.
    pub fn public_message(&self) -> (r: String)
        ensures
            is_internal(*self) ==> r@ == "An internal error occurred"@,
            !is_internal(*self) ==> r@ == spec_message(*self),
    {
        match self {
            AppError::Database(_) | AppError::Io(_) | AppError::Other(_) => String::from_str(
                "An internal error occurred",
            ),
            _ => self.message(),
        }
    }

    /// The numeric details of the error body, as name and value pairs.
    pub fn detail(&self) -> (r: Vec<(&'static str, u64)>)
        ensures
            r@.len() == spec_detail(*self).len(),
            forall|i: int|
                0 <= i < r@.len() ==> (#[trigger] r@[i]).0@ == spec_detail(*self)[i].0 && r@[i].1
                    == spec_detail(*self)[i].1,
    {
        match self {
            AppError::PayloadTooLarge { received, limit } => vec![("received", *received), ("limit", *limit)],
            AppError::InsufficientStorage { available, required } => vec![
                ("available", *available),
                ("required", *required),
            ],
            AppError::OffsetConflict { expected } => vec![("expectedOffset", *expected)],
            AppError::RangeNotSatisfiable { size } => vec![("size", *size)],
            _ => Vec::new(),
        }
    }

    /// The `Content-Range` header that accompanies an unsatisfiable range:
    /// `bytes */` followed by the file size.
    pub fn content_range(&self) -> (r: Option<String>)
        ensures
            match *self {
                AppError::RangeNotSatisfiable { size } => r matches Some(v) && v@ == "bytes */"@
                    + decimal(size as nat),
                _ => r is None,
            },
    {
        match self {
            AppError::RangeNotSatisfiable { size } => {
                let mut v = String::from_str("bytes */");
                let n = decimal_string(*size);
                v.append(n.as_str());
                Some(v)
            },
            _ => None,
        }
    }
}

} // verus!
