use clipboard_vault::error::AppError;
use clipboard_vault::input::{parse_tag_field, require_same_origin, split_comma_list, validate_source_url};

fn message(result: Result<Option<String>, AppError>) -> String {
    match result {
        Err(AppError::Validation(m)) => m,
        _ => panic!("expected a validation error"),
    }
}

#[test]
fn source_urls_are_trimmed_and_checked() {
    assert_eq!(validate_source_url(None, "source_url").unwrap(), None);
    assert_eq!(validate_source_url(Some("   ".into()), "source_url").unwrap(), None);
    assert_eq!(
        validate_source_url(Some(" https://example.com/a ".into()), "source_url").unwrap().as_deref(),
        Some("https://example.com/a")
    );
    assert_eq!(message(validate_source_url(Some("not a url".into()), "source_url")), "source_url is invalid");
    assert_eq!(
        message(validate_source_url(Some("mailto:a@example.com".into()), "sourceUrl")),
        "sourceUrl must use http or https"
    );
    let long = format!("https://example.com/{}", "a".repeat(2040));
    assert_eq!(message(validate_source_url(Some(long), "source_url")), "source_url is too long");
}

#[test]
fn browser_requests_must_come_from_the_site() {
    assert!(require_same_origin(Some("https://vault.example.com"), "https://vault.example.com").is_ok());
    assert!(require_same_origin(Some("https://vault.example.com:443"), "https://vault.example.com/").is_ok());
    assert!(matches!(
        require_same_origin(Some("https://evil.example.com"), "https://vault.example.com"),
        Err(AppError::Forbidden)
    ));
    assert!(matches!(
        require_same_origin(Some("http://vault.example.com"), "https://vault.example.com"),
        Err(AppError::Forbidden)
    ));
    assert!(matches!(require_same_origin(None, "https://vault.example.com"), Err(AppError::Forbidden)));
    assert!(matches!(require_same_origin(Some("null"), "https://vault.example.com"), Err(AppError::Forbidden)));
}

#[test]
fn tag_fields_are_json_or_comma_separated() {
    assert_eq!(parse_tag_field("[\"a\", \" b \"]"), vec!["a", " b "]);
    assert_eq!(parse_tag_field(" a , b,,"), vec!["a", "b"]);
    assert_eq!(parse_tag_field("[1,2]"), vec!["[1", "2]"]);
    assert_eq!(split_comma_list(""), Vec::<String>::new());
}
