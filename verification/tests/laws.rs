use clipboard_vault::auth::workspace_cookie;
use clipboard_vault::config::{Config, ConfigInput};
use clipboard_vault::pages::{api_keys_path, append_form_encoded, max_upload_mb, settings_limit, workspace_cookie_header};
use clipboard_vault::storage::{normalize_virtual_path, validate_tags};
use clipboard_vault::uploads::{check_chunk_step, tus_workspace_limit};
use clipboard_vault::workspace::api_workspace_limit;
use clipboard_vault::error::AppError;

#[test]
fn normalized_paths_hold_only_plain_segments() {
    let samples = [
        "  a / ./ b \\ c//",
        "/./x/ y /",
        "\\\\server\\share",
        "",
        "docs/2026/ q3 ",
    ];
    for sample in samples {
        let path = normalize_virtual_path(sample).unwrap();
        assert!(path.starts_with('/'));
        if path != "/" {
            for segment in path[1..].split('/') {
                assert!(!segment.is_empty());
                assert!(segment != "." && segment != "..");
                assert!(!segment.contains('\\'));
                assert_eq!(segment.trim(), segment);
            }
        }
    }
    assert!(normalize_virtual_path("a/ .. /b").is_err());
}

#[test]
fn the_cookie_a_switch_sets_is_the_one_read_back() {
    for id in ["org-1", "3f2a9c1e-77aa-4b0e-9a1b-2c3d4e5f6a7b", "", "a=b"] {
        for base in ["https://vault.example.com", "http://localhost"] {
            let header = workspace_cookie_header(id, base);
            let pair = header.split(';').next().unwrap();
            assert_eq!(workspace_cookie(Some(pair)).as_deref(), Some(id));
        }
    }
}

#[test]
fn encoded_query_values_hold_only_safe_characters() {
    let mut out = String::new();
    append_form_encoded(&mut out, "a&b=c?d#e /f\u{e9}\n");
    assert!(out.chars().all(|c| c.is_ascii_alphanumeric() || "*-._+%".contains(c)));
    let path = api_keys_path("x&organizationId=evil", "y");
    assert_eq!(path.matches('&').count(), 1);
    assert_eq!(path.matches('=').count(), 2);
}

#[test]
fn accepted_settings_nest_their_limits() {
    let config = Config::from_vars(ConfigInput {
        port: None,
        database_url: Some("postgres://db".into()),
        database_max_connections: None,
        upload_root: None,
        public_base_url: None,
        auth_internal_url: None,
        auth_bridge_secret: Some("x".repeat(40)),
        server_max_upload_bytes: Some("2000000000".into()),
        legacy_max_upload_bytes: Some("50000000".into()),
        upload_disk_reserve_bytes: None,
        tus_chunk_size_bytes: Some("8000000".into()),
        tus_session_ttl_seconds: Some("3600".into()),
    })
    .unwrap();
    assert!(1 <= config.tus_chunk_size_bytes);
    assert!(config.tus_chunk_size_bytes <= config.legacy_max_upload_bytes);
    assert!(config.legacy_max_upload_bytes <= config.server_max_upload_bytes);
    assert!(config.server_max_upload_bytes <= i64::MAX as u64);
}

#[test]
fn a_saved_workspace_limit_is_read_back_unchanged() {
    let server = 10_737_418_240u64;
    for mb in [0u64, 1, 25, 100, 10_240, 20_000, u64::MAX] {
        let stored = settings_limit(mb, server);
        assert!(stored >= 1 && stored as u64 <= server);
        assert_eq!(tus_workspace_limit(Some(stored)), stored as u64);
        assert_eq!(api_workspace_limit(Some(stored), server), stored as u64);
        assert_eq!(max_upload_mb(stored as u64, server), stored as u64 / 1_048_576);
    }
}

#[test]
fn uploads_resume_from_the_confirmed_offset() {
    let stale = check_chunk_step("uploading", false, 100, 300, 50, 10);
    assert!(matches!(stale, Err(AppError::OffsetConflict { expected: 100 })));
    let first = check_chunk_step("uploading", false, 100, 300, 100, 150).unwrap();
    assert_eq!(first.next_offset, 250);
    assert!(!first.complete);
    let second = check_chunk_step("uploading", false, first.next_offset as i64, 300, first.next_offset, 50).unwrap();
    assert_eq!(second.next_offset, 300);
    assert!(second.complete);
    let overflow = check_chunk_step("uploading", false, 250, 300, 250, 51);
    assert!(matches!(overflow, Err(AppError::PayloadTooLarge { received: 301, limit: 300 })));
}

#[test]
fn normalizing_twice_changes_nothing() {
    for sample in ["  a / ./ b \\ c//", "x", "", "/docs/ 2026 /q3", "\u{3000}t\u{3000}/u"] {
        let once = normalize_virtual_path(sample).unwrap();
        assert_eq!(normalize_virtual_path(&once).unwrap(), once);
    }
    // A 1024-byte path gains a leading slash and then exceeds the limit.
    let long = "a".repeat(255);
    let full = format!("{long}/{long}/{long}/{}/a", "a".repeat(254));
    assert_eq!(full.len(), 1024);
    let once = normalize_virtual_path(&full).unwrap();
    assert_eq!(once.len(), 1025);
    assert!(normalize_virtual_path(&once).is_err());
}

#[test]
fn paths_under_the_limit_normalize_once() {
    // A 1023-byte path without a leading slash grows to exactly 1024 bytes.
    let long = "a".repeat(255);
    let just_under = format!("{long}/{long}/{long}/{}", "a".repeat(255));
    assert_eq!(just_under.len(), 1023);
    let once = normalize_virtual_path(&just_under).unwrap();
    assert_eq!(once.len(), 1024);
    assert_eq!(normalize_virtual_path(&once).unwrap(), once);
    // Blank segments and backslashes only shrink the result.
    let messy = format!("{}\\\\ . //{}", "b".repeat(200), "c".repeat(200));
    assert!(messy.len() < 1024);
    let once = normalize_virtual_path(&messy).unwrap();
    assert!(once.len() <= messy.len() + 1);
    assert_eq!(normalize_virtual_path(&once).unwrap(), once);
}

#[test]
fn accepted_tags_validate_to_themselves() {
    let given: Vec<String> = ["Rust", " Example ", "rust", "", "ÜBER", "v1.2_x"].iter().map(|t| t.to_string()).collect();
    let accepted = validate_tags(given).unwrap();
    assert_eq!(accepted, vec!["rust", "example", "über", "v1.2_x"]);
    assert_eq!(validate_tags(accepted.clone()).unwrap(), accepted);
}
