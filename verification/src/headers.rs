//! The headers every response carries: browser hardening, the resumable
//! upload protocol marker, and caching rules.
use vstd::prelude::*;

use crate::auth::str_view;
use crate::text::{chars_of, ends_with, ends_with_lit, starts_with, starts_with_lit};

verus! {

/// The content security policy of every page.
pub const CONTENT_SECURITY_POLICY: &'static str = "default-src 'self'; script-src 'self'; style-src 'self'; img-src 'self' data:; connect-src 'self'; frame-src 'self'; object-src 'none'; base-uri 'self'; form-action 'self' https://accounts.google.com";

/// The headers set on the response to a request for `path` whose response
/// has the given content type: the fixed hardening headers; framing only
/// from the same origin for previews, never otherwise; the protocol marker
/// on resumable upload routes; assets cached forever (their URLs carry a
/// fingerprint) and HTML pages never stored.
pub open spec fn spec_security_headers(path: Seq<char>, content_type: Option<Seq<char>>) -> Seq<(Seq<char>, Seq<char>)> {
    let fixed = seq![
        ("x-content-type-options"@, "nosniff"@),
        ("x-frame-options"@, if ends_with(path, "/preview"@) { "SAMEORIGIN"@ } else { "DENY"@ }),
        ("referrer-policy"@, "strict-origin-when-cross-origin"@),
        ("permissions-policy"@, "clipboard-read=(), camera=(), microphone=(), geolocation=()"@),
        ("content-security-policy"@, CONTENT_SECURITY_POLICY@),
    ];
    let tus = if starts_with(path, "/api/v1/uploads"@) {
        seq![("tus-resumable"@, "1.0.0"@)]
    } else {
        Seq::empty()
    };
    let cache = if starts_with(path, "/static/"@) {
        seq![("cache-control"@, "public, max-age=31536000, immutable"@)]
    } else if content_type matches Some(t) && starts_with(t, "text/html"@) {
        seq![("cache-control"@, "no-store"@)]
    } else {
        Seq::empty()
    };
    fixed + tus + cache
}

/// The views of header name and value pairs.
pub open spec fn header_views(h: Seq<(&str, &str)>) -> Seq<(Seq<char>, Seq<char>)> {
    h.map_values(|p: (&str, &str)| (p.0@, p.1@))
}

/// The headers to set, in order, on the response to a request for `path`;
/// `content_type` is the response's content type when it is visible text.
pub fn security_headers(path: &str, content_type: Option<&str>) -> (r: Vec<(&'static str, &'static str)>)
    ensures
        header_views(r@) == spec_security_headers(path@, str_view(content_type)),
{
    let p = chars_of(path);
    let preview = ends_with_lit(p.as_slice(), "/preview");
    let tus = starts_with_lit(p.as_slice(), "/api/v1/uploads");
    let asset = starts_with_lit(p.as_slice(), "/static/");
    let mut out: Vec<(&'static str, &'static str)> = Vec::new();
    out.push(("x-content-type-options", "nosniff"));
    out.push(("x-frame-options", if preview { "SAMEORIGIN" } else { "DENY" }));
    out.push(("referrer-policy", "strict-origin-when-cross-origin"));
    out.push(("permissions-policy", "clipboard-read=(), camera=(), microphone=(), geolocation=()"));
    out.push(("content-security-policy", CONTENT_SECURITY_POLICY));
    if tus {
        out.push(("tus-resumable", "1.0.0"));
    }
    if asset {
        out.push(("cache-control", "public, max-age=31536000, immutable"));
    } else {
        let html = match content_type {
            Some(t) => {
                let c = chars_of(t);
                starts_with_lit(c.as_slice(), "text/html")
            },
            None => false,
        };
        if html {
            out.push(("cache-control", "no-store"));
        }
    }
    assert(header_views(out@) =~= spec_security_headers(path@, str_view(content_type)));
    out
}

} // verus!
