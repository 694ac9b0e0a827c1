use clipboard_vault::storage::{detect_text_kind, normalize_virtual_path};

#[test]
fn virtual_paths_never_escape_storage() {
    assert!(normalize_virtual_path("../../etc/passwd").is_err());
    assert_eq!(normalize_virtual_path("reports\\2026//july").unwrap(), "/reports/2026/july");
}

#[test]
fn detects_code_and_urls() {
    assert_eq!(detect_text_kind("https://example.com/a", "auto").unwrap(), "url");
    assert_eq!(detect_text_kind("fn main() {\n  println!(\"hi\");\n}", "auto").unwrap(), "code");
}

use clipboard_vault::error::AppError;
use clipboard_vault::storage::{
    blob_storage_key, checked_storage_key, file_kind, safe_component, safe_filename, sniff_mime, storage_key_is_safe,
    validate_tags,
};

fn tags(values: &[&str]) -> Vec<String> {
    values.iter().map(|v| v.to_string()).collect()
}

#[test]
fn path_errors_name_the_problem() {
    let long = format!("/{}", "a".repeat(256));
    match normalize_virtual_path(&long) {
        Err(AppError::Validation(m)) => assert_eq!(m, "virtual_path segment is too long"),
        _ => panic!("expected a long segment to be refused"),
    }
    let huge = "a/".repeat(600);
    match normalize_virtual_path(&huge) {
        Err(AppError::Validation(m)) => assert_eq!(m, "virtual_path is invalid"),
        _ => panic!("expected a long path to be refused"),
    }
    match normalize_virtual_path("a\0b") {
        Err(AppError::Validation(m)) => assert_eq!(m, "virtual_path is invalid"),
        _ => panic!("expected NUL to be refused"),
    }
}

#[test]
fn tags_are_cleaned_and_deduplicated() {
    assert_eq!(validate_tags(tags(&["Rust", " rust ", "", "web-dev", "v1.2_x"])).unwrap(), vec!["rust", "web-dev", "v1.2_x"]);
    match validate_tags(tags(&["ok", "Bad Tag!"])) {
        Err(AppError::Validation(m)) => assert_eq!(m, "invalid tag: bad tag!"),
        _ => panic!("expected an invalid tag"),
    }
    match validate_tags(vec!["t".to_string(); 21]) {
        Err(AppError::Validation(m)) => assert_eq!(m, "at most 20 tags are allowed"),
        _ => panic!("expected too many tags"),
    }
    assert!(validate_tags(tags(&[&"x".repeat(41)])).is_err());
    assert_eq!(validate_tags(tags(&["Ünïcode"])).unwrap(), vec!["ünïcode"]);
}

#[test]
fn kinds_are_explicit_or_detected() {
    assert_eq!(detect_text_kind("anything", "code").unwrap(), "code");
    match detect_text_kind("x", "video") {
        Err(AppError::Validation(m)) => assert_eq!(m, "type must be auto, text, html, code, or url"),
        _ => panic!("expected an unknown kind to be refused"),
    }
    assert_eq!(detect_text_kind("  <!DOCTYPE html><p>", "auto").unwrap(), "html");
    assert_eq!(detect_text_kind("https://a b", "auto").unwrap(), "text");
    assert_eq!(detect_text_kind("hello world", "auto").unwrap(), "text");
    assert_eq!(detect_text_kind("x = 1;\ny = {2};", "auto").unwrap(), "text");
    assert_eq!(detect_text_kind("let x = 1;\ny = {2};", "auto").unwrap(), "code");
    assert_eq!(detect_text_kind("a\n  b\n\tc", "auto").unwrap(), "text");
    assert_eq!(detect_text_kind("a = {\n  b;\n  c\n}", "auto").unwrap(), "code");
}

#[test]
fn file_kinds_follow_the_media_type() {
    assert_eq!(file_kind("image/png"), "image");
    assert_eq!(file_kind("image/svg+xml"), "file");
    assert_eq!(file_kind("text/html; charset=utf-8"), "html");
    assert_eq!(file_kind("application/pdf"), "file");
}

#[test]
fn file_names_lose_directories_and_controls() {
    assert_eq!(safe_filename("C:\\Users\\me\\report.pdf"), "report.pdf");
    assert_eq!(safe_filename("../../etc/passwd"), "passwd");
    assert_eq!(safe_filename(" a\u{7}b\u{85} "), "ab");
    assert_eq!(safe_filename("dir/"), "");
    assert_eq!(safe_filename(&"n".repeat(300)).len(), 255);
}

#[test]
fn components_keep_only_safe_characters() {
    assert_eq!(safe_component("org 1/x"), "org_1_x");
    assert_eq!(safe_component("a-b_C9"), "a-b_C9");
    assert_eq!(safe_component("é"), "_");
}

#[test]
fn storage_keys_stay_below_the_root() {
    for key in ["org/ab/cd/uuid", "a/./b", "a//b", "file"] {
        assert!(storage_key_is_safe(key), "{key}");
        assert!(checked_storage_key(key).is_ok());
    }
    for key in ["../x", "/abs", "./x", "a/../b", ".", ".."] {
        assert!(!storage_key_is_safe(key), "{key}");
        match checked_storage_key(key) {
            Err(AppError::Validation(m)) => assert_eq!(m, "unsafe storage key"),
            _ => panic!("expected {key} to be refused"),
        }
    }
}

#[test]
fn blobs_are_filed_by_workspace_and_digest() {
    let key = blob_storage_key("org 1", "abcdef0123", "0b8d");
    assert_eq!(key, "org_1/ab/cd/0b8d");
    assert!(storage_key_is_safe(&key));
}

#[test]
fn media_types_are_sniffed_then_guessed_then_declared() {
    assert_eq!(sniff_mime(b"\x89PNG\r\n\x1a\nxx", "a.txt", Some("text/plain")), "image/png");
    assert_eq!(sniff_mime(b"\xff\xd8\xff\xe0", "", None), "image/jpeg");
    assert_eq!(sniff_mime(b"GIF87a", "", None), "image/gif");
    assert_eq!(sniff_mime(b"%PDF-1.4", "", None), "application/pdf");
    assert_eq!(sniff_mime(b"PK\x03\x04", "", None), "application/zip");
    assert_eq!(sniff_mime(b"hello", "notes.txt", Some("application/x-foo")), "text/plain");
    assert_eq!(sniff_mime(b"hello", "data.unknownext", Some("application/x-foo")), "application/x-foo");
    assert_eq!(sniff_mime(b"hello", "data.unknownext", None), "application/octet-stream");
}
