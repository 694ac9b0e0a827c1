use clipboard_vault::uploads::{metadata_get, parse_metadata};

#[test]
fn metadata_parser_decodes_standard_tus_values() {
    let parsed = parse_metadata("filename aGVsbG8udHh0,virtualPath L2RvY3M=").unwrap();
    assert_eq!(metadata_get(&parsed, "filename").unwrap(), "hello.txt");
    assert_eq!(metadata_get(&parsed, "virtualPath").unwrap(), "/docs");
}

use clipboard_vault::error::AppError;
use clipboard_vault::uploads::{
    available_bytes, check_admission, check_chunk_request, check_completed_length, decode_base64,
    outstanding_bytes, partial_file_state, plan_upload, require_tus, required_u64_header, session_gone,
    should_finalize, state_after_chunk, tus_progress_headers, tus_workspace_limit, upload_filename, upload_length,
    upload_location, upload_temp_key, visible_error_code, PartialFile, StreamProgress,
};

fn validation<T>(result: Result<T, AppError>) -> String {
    match result {
        Err(AppError::Validation(m)) => m,
        _ => panic!("expected a validation error"),
    }
}

#[test]
fn base64_values_decode_strictly() {
    assert_eq!(decode_base64("aGVsbG8=").unwrap(), b"hello");
    assert_eq!(decode_base64("").unwrap(), b"");
    assert_eq!(decode_base64("YQ").unwrap(), b"a");
    assert_eq!(decode_base64("a").unwrap(), b"");
    assert_eq!(decode_base64("YQ==ignored").unwrap(), b"a");
    assert_eq!(validation(decode_base64("a$==")), "invalid base64 metadata");
}

#[test]
fn metadata_keeps_the_last_value_of_a_key() {
    let parsed = parse_metadata(" a Yg== , ,a Yw==").unwrap();
    assert_eq!(metadata_get(&parsed, "a").as_deref(), Some("c"));
    assert_eq!(metadata_get(&parsed, "missing"), None);
    assert_eq!(validation(parse_metadata("flag")), "invalid Upload-Metadata");
    assert_eq!(validation(parse_metadata("bad_key Yg==")), "invalid Upload-Metadata key");
    assert_eq!(validation(parse_metadata("k /w==")), "Upload-Metadata must contain UTF-8 values");
}

#[test]
fn the_protocol_version_is_required() {
    assert!(require_tus(Some("1.0.0")).is_ok());
    assert_eq!(validation(require_tus(Some("0.2.2"))), "Tus-Resumable must be 1.0.0");
    assert_eq!(validation(require_tus(None)), "Tus-Resumable must be 1.0.0");
}

#[test]
fn numeric_headers_name_themselves_when_missing() {
    assert_eq!(required_u64_header(Some("42"), "upload-offset").unwrap(), 42);
    assert_eq!(validation(required_u64_header(Some("-1"), "upload-offset")), "missing or invalid upload-offset header");
    assert_eq!(validation(required_u64_header(None, "content-length")), "missing or invalid content-length header");
    assert_eq!(upload_length(Some("10")).unwrap(), 10);
    assert_eq!(validation(upload_length(Some("0"))), "Upload-Length must be greater than zero");
    assert_eq!(validation(upload_length(None)), "missing or invalid upload-length header");
}

#[test]
fn admission_keeps_the_disk_reserve() {
    assert!(check_admission(100, 50, 20, 30).is_ok());
    assert!(matches!(
        check_admission(99, 50, 20, 30),
        Err(AppError::InsufficientStorage { available: 99, required: 100 })
    ));
    assert!(matches!(
        check_admission(u64::MAX - 1, u64::MAX, 1, 1),
        Err(AppError::InsufficientStorage { required: u64::MAX, .. })
    ));
    assert_eq!(outstanding_bytes(-7), 0);
    assert_eq!(outstanding_bytes(7), 7);
    assert_eq!(tus_workspace_limit(None), 104_857_600);
    assert_eq!(tus_workspace_limit(Some(0)), 1);
}

#[test]
fn uploads_are_planned_from_metadata() {
    let header = "filename cmVwb3J0LnBkZg==,virtualPath L2RvY3M=,tags WyJhIiwiQiJd,contentType YXBwbGljYXRpb24vcGRm";
    let plan = plan_upload(1000, 2000, 5000, header).unwrap();
    assert_eq!(plan.length, 1000);
    assert_eq!(plan.filename, "report.pdf");
    assert_eq!(plan.virtual_path, "/docs");
    assert_eq!(plan.tags, vec!["a", "b"]);
    assert_eq!(plan.source_url, None);
    assert_eq!(plan.declared_mime.as_deref(), Some("application/pdf"));
    let unnamed = plan_upload(1, 2, 3, "").unwrap();
    assert_eq!(unnamed.filename, "upload.bin");
    assert_eq!(unnamed.virtual_path, "/");
    assert!(matches!(plan_upload(3000, 2000, 5000, header), Err(AppError::PayloadTooLarge { received: 3000, limit: 2000 })));
    assert!(matches!(plan_upload(3000, 9000, 2500, header), Err(AppError::PayloadTooLarge { received: 3000, limit: 2500 })));
    assert_eq!(validation(plan_upload(1, 2, 3, &"a".repeat(8193))), "Upload-Metadata is too large");
    assert_eq!(validation(plan_upload(1, 2, 3, "sourceUrl Zm9v")), "sourceUrl is invalid");
}

#[test]
fn session_paths_and_headers() {
    assert_eq!(upload_temp_key("abc"), "tmp/abc.part");
    assert_eq!(upload_location("https://v.example.com", "abc"), "https://v.example.com/api/v1/uploads/abc");
    assert_eq!(
        tus_progress_headers(5, 10),
        vec![
            ("tus-resumable", "1.0.0".to_string()),
            ("upload-offset", "5".to_string()),
            ("upload-length", "10".to_string())
        ]
    );
    assert!(session_gone("failed") && session_gone("canceled") && session_gone("expired"));
    assert!(!session_gone("uploading") && !session_gone("completed"));
    assert_eq!(visible_error_code(Some("PROCESSING".into())), None);
    assert_eq!(visible_error_code(Some("FINALIZE_FAILED".into())).as_deref(), Some("FINALIZE_FAILED"));
}

#[test]
fn chunk_requests_are_framed_correctly() {
    let kind = Some("application/offset+octet-stream");
    assert_eq!(check_chunk_request(kind, Some("0"), Some("5"), 5, 16).unwrap(), 0);
    assert_eq!(
        validation(check_chunk_request(Some("application/octet-stream"), Some("0"), Some("5"), 5, 16)),
        "PATCH Content-Type must be application/offset+octet-stream"
    );
    assert_eq!(validation(check_chunk_request(kind, None, Some("5"), 5, 16)), "missing or invalid upload-offset header");
    assert_eq!(validation(check_chunk_request(kind, Some("0"), None, 5, 16)), "missing or invalid content-length header");
    assert_eq!(validation(check_chunk_request(kind, Some("0"), Some("4"), 5, 16)), "Content-Length does not match the chunk");
    assert!(matches!(
        check_chunk_request(kind, Some("0"), Some("20"), 20, 16),
        Err(AppError::PayloadTooLarge { received: 20, limit: 16 })
    ));
    assert!(matches!(
        check_chunk_request(kind, Some("0"), Some("0"), 0, 16),
        Err(AppError::PayloadTooLarge { received: 0, limit: 16 })
    ));
}

#[test]
fn partial_files_are_compared_with_the_offset() {
    assert!(matches!(partial_file_state(5, 10), PartialFile::Short));
    assert!(matches!(partial_file_state(15, 10), PartialFile::Truncate));
    assert!(matches!(partial_file_state(10, 10), PartialFile::Ready));
}

#[test]
fn sessions_finalize_once_complete() {
    let step = clipboard_vault::uploads::check_chunk_step("uploading", false, 0, 10, 0, 10).unwrap();
    assert_eq!(state_after_chunk(&step), "finalizing");
    let step = clipboard_vault::uploads::check_chunk_step("uploading", false, 0, 10, 0, 4).unwrap();
    assert_eq!(state_after_chunk(&step), "uploading");
    assert_eq!(validation(clipboard_vault::uploads::check_chunk_step("completed", false, 0, 10, 0, 4)), "upload is not active");
    assert_eq!(validation(clipboard_vault::uploads::check_chunk_step("uploading", true, 0, 10, 0, 4)), "upload is not active");
    assert!(should_finalize(Some("finalizing")));
    assert!(!should_finalize(Some("completed")));
    assert!(!should_finalize(None));
    assert!(check_completed_length(10, 10).is_ok());
    assert_eq!(validation(check_completed_length(9, 10)), "completed upload length is invalid");
}

#[test]
fn streamed_files_are_counted_sniffed_and_hashed() {
    let mut progress = StreamProgress::new(100);
    progress.accept_chunk(b"%PDF-").unwrap();
    progress.accept_chunk(b"1.7 hello").unwrap();
    let upload = progress.into_temp_upload("tmp/x.part".into(), "doc.bin".into(), None).unwrap();
    assert_eq!(upload.size_bytes, 14);
    assert_eq!(upload.mime_type, "application/pdf");
    assert_eq!(upload.path, "tmp/x.part");
    assert_eq!(upload.original_filename, "doc.bin");
    // sha256("%PDF-1.7 hello")
    let expected = hex::encode(<sha2::Sha256 as sha2::Digest>::digest(b"%PDF-1.7 hello"));
    assert_eq!(upload.sha256, expected);
}

#[test]
fn streams_refuse_oversized_and_empty_files() {
    let mut progress = StreamProgress::new(4);
    assert!(progress.accept_chunk(b"abc").is_ok());
    assert!(matches!(progress.accept_chunk(b"de"), Err(AppError::PayloadTooLarge { received: 5, limit: 4 })));
    let empty = StreamProgress::new(4);
    assert_eq!(validation(empty.into_temp_upload("p".into(), "f".into(), None)), "file cannot be empty");
    let mut text = StreamProgress::new(10);
    text.accept_chunk(b"hi").unwrap();
    let upload = text.into_temp_upload("p".into(), "f".into(), Some("text/x-custom")).unwrap();
    assert_eq!(upload.mime_type, "text/x-custom");
    assert_eq!(upload.sha256, "8f434346648f6b96df89dda901c5176b10a6d83961dd3c1ac88b59b2dc327aa4");
}

#[test]
fn stored_names_fall_back_to_upload_bin() {
    assert_eq!(upload_filename(Some("a/b/c.txt")), "c.txt");
    assert_eq!(upload_filename(Some("dir/")), "upload.bin");
    assert_eq!(upload_filename(None), "upload.bin");
    assert_eq!(available_bytes(10, 4096), 40_960);
    assert_eq!(available_bytes(u64::MAX, 2), u64::MAX);
}
