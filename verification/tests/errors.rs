use clipboard_vault::error::AppError;

#[test]
fn statuses_and_codes_follow_the_error() {
    let cases: Vec<(AppError, u16, &str)> = vec![
        (AppError::Unauthorized, 401, "AUTH_REQUIRED"),
        (AppError::PendingApproval, 403, "ACCOUNT_PENDING"),
        (AppError::Forbidden, 403, "FORBIDDEN"),
        (AppError::NotFound, 404, "NOT_FOUND"),
        (AppError::Validation("bad".into()), 400, "VALIDATION_ERROR"),
        (AppError::PayloadTooLarge { received: 2, limit: 1 }, 413, "PAYLOAD_TOO_LARGE"),
        (AppError::InsufficientStorage { available: 1, required: 2 }, 507, "INSUFFICIENT_STORAGE"),
        (AppError::OffsetConflict { expected: 5 }, 409, "UPLOAD_OFFSET_CONFLICT"),
        (AppError::PreviewUnavailable, 415, "PREVIEW_UNAVAILABLE"),
        (AppError::RangeNotSatisfiable { size: 10 }, 416, "RANGE_NOT_SATISFIABLE"),
        (AppError::AuthUnavailable, 503, "AUTH_UNAVAILABLE"),
        (AppError::Multipart { status: 413, message: "too big".into() }, 413, "MULTIPART_ERROR"),
        (AppError::Database("db down".into()), 500, "INTERNAL_ERROR"),
        (AppError::Io("disk".into()), 500, "INTERNAL_ERROR"),
        (AppError::Other("boom".into()), 500, "INTERNAL_ERROR"),
    ];
    for (error, status, code) in cases {
        assert_eq!(error.status(), status);
        assert_eq!(error.code(), code);
    }
}

#[test]
fn internal_failures_keep_their_cause_private() {
    let error = AppError::Database("password authentication failed for user vault".into());
    assert_eq!(error.message(), "password authentication failed for user vault");
    assert_eq!(error.public_message(), "An internal error occurred");
    assert_eq!(AppError::Other("x".into()).public_message(), "An internal error occurred");
    assert_eq!(AppError::Validation("bad tag".into()).public_message(), "bad tag");
    assert_eq!(AppError::Forbidden.public_message(), "you do not have permission for this action");
    assert_eq!(
        AppError::Multipart { status: 400, message: "malformed".into() }.public_message(),
        "malformed"
    );
}

#[test]
fn details_carry_the_numbers() {
    assert_eq!(
        AppError::PayloadTooLarge { received: 120_000_000, limit: 104_857_600 }.detail(),
        vec![("received", 120_000_000), ("limit", 104_857_600)]
    );
    assert_eq!(
        AppError::InsufficientStorage { available: 3, required: 9 }.detail(),
        vec![("available", 3), ("required", 9)]
    );
    assert_eq!(AppError::OffsetConflict { expected: 7 }.detail(), vec![("expectedOffset", 7)]);
    assert_eq!(AppError::RangeNotSatisfiable { size: 4 }.detail(), vec![("size", 4)]);
    assert!(AppError::NotFound.detail().is_empty());
}

#[test]
fn unsatisfiable_ranges_report_the_size() {
    assert_eq!(AppError::RangeNotSatisfiable { size: 1234 }.content_range().as_deref(), Some("bytes */1234"));
    assert_eq!(AppError::NotFound.content_range(), None);
}
