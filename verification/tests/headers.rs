use clipboard_vault::headers::{security_headers, CONTENT_SECURITY_POLICY};

fn value<'a>(headers: &'a [(&'static str, &'static str)], name: &str) -> Option<&'a str> {
    headers.iter().find(|(n, _)| *n == name).map(|(_, v)| *v)
}

#[test]
fn every_response_is_hardened() {
    let headers = security_headers("/api/v1/items", Some("application/json"));
    assert_eq!(value(&headers, "x-content-type-options"), Some("nosniff"));
    assert_eq!(value(&headers, "x-frame-options"), Some("DENY"));
    assert_eq!(value(&headers, "referrer-policy"), Some("strict-origin-when-cross-origin"));
    assert_eq!(
        value(&headers, "permissions-policy"),
        Some("clipboard-read=(), camera=(), microphone=(), geolocation=()")
    );
    assert_eq!(value(&headers, "content-security-policy"), Some(CONTENT_SECURITY_POLICY));
    assert_eq!(value(&headers, "cache-control"), None);
    assert_eq!(headers.len(), 5);
}

#[test]
fn previews_may_be_framed_by_the_site() {
    let headers = security_headers("/api/v1/items/42/preview", None);
    assert_eq!(value(&headers, "x-frame-options"), Some("SAMEORIGIN"));
}

#[test]
fn upload_routes_announce_the_protocol() {
    let headers = security_headers("/api/v1/uploads/abc", None);
    assert_eq!(value(&headers, "tus-resumable"), Some("1.0.0"));
}

#[test]
fn assets_are_cached_and_pages_are_not() {
    let asset = security_headers("/static/app.css", Some("text/html"));
    assert_eq!(value(&asset, "cache-control"), Some("public, max-age=31536000, immutable"));
    let page = security_headers("/", Some("text/html; charset=utf-8"));
    assert_eq!(value(&page, "cache-control"), Some("no-store"));
}
