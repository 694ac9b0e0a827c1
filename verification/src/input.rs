//! Client-supplied values that need an outside parser: source URLs, the
//! origin of browser requests, and tag lists sent either as a JSON array or
//! as comma-separated text.
use vstd::prelude::*;

use crate::error::{is_validation, AppError, AppResult};
use crate::text::{chars_of, eq_lit, same_chars, split, split_chars, string_from, trim, trim_chars, utf8_len, utf8_len_of};

verus! {

/// The scheme of `s` when the `url` crate parses it as an absolute URL.
pub uninterp spec fn spec_url_scheme(s: Seq<char>) -> Option<Seq<char>>;

/// The ASCII serialization of the origin of `s`, when the `url` crate parses
/// it and gives it a (scheme, host, port) origin; `None` when parsing fails
/// or the origin is opaque (an opaque origin equals no other origin).
pub uninterp spec fn spec_url_origin(s: Seq<char>) -> Option<Seq<char>>;

/// The strings of `s` when `serde_json` reads it as a JSON array of strings.
pub uninterp spec fn spec_json_string_list(s: Seq<char>) -> Option<Seq<Seq<char>>>;

/// `url::Url::parse(s)` followed by `scheme()`: the scheme of an absolute
/// URL, or `None` when `s` is not one.
#[verifier::external_body]
fn url_scheme(s: &str) -> (r: Option<String>)
    ensures
        match r {
            Some(x) => spec_url_scheme(s@) == Some(x@),
            None => spec_url_scheme(s@) is None,
        },
{
    match url::Url::parse(s) {
        Ok(u) => Some(u.scheme().to_owned()),
        Err(_) => None,
    }
}

/// `url::Url::parse(s)` followed by `origin()`: the ASCII serialization of
/// a tuple origin; `None` for a parse failure or an opaque origin.
#[verifier::external_body]
fn url_origin(s: &str) -> (r: Option<String>)
    ensures
        match r {
            Some(x) => spec_url_origin(s@) == Some(x@),
            None => spec_url_origin(s@) is None,
        },
{
    match url::Url::parse(s) {
        Ok(u) => {
            let origin = u.origin();
            if origin.is_tuple() {
                Some(origin.ascii_serialization())
            } else {
                None
            }
        },
        Err(_) => None,
    }
}

/// `serde_json::from_str::<Vec<String>>(s)`: the strings of a JSON array of
/// strings, or `None` when `s` is not one.
#[verifier::external_body]
fn json_string_list(s: &str) -> (r: Option<Vec<String>>)
    ensures
        match r {
            Some(v) => spec_json_string_list(s@) == Some(v@.map_values(|x: String| x@)),
            None => spec_json_string_list(s@) is None,
        },
{
    match serde_json::from_str::<Vec<String>>(s) {
        Ok(v) => Some(v),
        Err(_) => None,
    }
}

/// The accepted form of an optional source URL: blank means none; otherwise
/// the trimmed text, which must be at most 2048 bytes and an absolute
/// `http` or `https` URL. `field` names the value in messages.
pub open spec fn spec_source_url(value: Option<Seq<char>>, field: Seq<char>) -> Result<Option<Seq<char>>, Seq<char>> {
    match value {
        None => Ok(None),
        Some(v) => {
            let t = trim(v);
            if t.len() == 0 {
                Ok(None)
            } else if utf8_len(t) > 2048 {
                Err(field + " is too long"@)
            } else {
                match spec_url_scheme(t) {
                    None => Err(field + " is invalid"@),
                    Some(s) => if s == "http"@ || s == "https"@ {
                        Ok(Some(t))
                    } else {
                        Err(field + " must use http or https"@)
                    },
                }
            }
        },
    }
}

/// The view of an optional string.
pub open spec fn opt_view(v: Option<String>) -> Option<Seq<char>> {
    match v {
        Some(s) => Some(s@),
        None => None,
    }
}

/// Checks an optional source URL; `field` is the name used in messages
/// (`source_url` for the JSON API, `sourceUrl` for upload metadata).
pub fn validate_source_url(value: Option<String>, field: &str) -> (r: AppResult<Option<String>>)
    ensures
        match r {
            Ok(v) => spec_source_url(opt_view(value), field@) == Ok::<Option<Seq<char>>, Seq<char>>(opt_view(v)),
            Err(e) => spec_source_url(opt_view(value), field@) matches Err(m) && is_validation(e, m),
        },
{
    let v = match value {
        None => {
            return Ok(None);
        },
        Some(v) => v,
    };
    let chars = chars_of(v.as_str());
    let t = trim_chars(chars.as_slice());
    if t.len() == 0 {
        return Ok(None);
    }
    if utf8_len_of(t.as_slice()) > 2048 {
        let mut msg = String::from_str(field);
        msg.append(" is too long");
        return Err(AppError::Validation(msg));
    }
    let text = string_from(t.as_slice());
    match url_scheme(text.as_str()) {
        None => {
            let mut msg = String::from_str(field);
            msg.append(" is invalid");
            Err(AppError::Validation(msg))
        },
        Some(s) => {
            let sc = chars_of(s.as_str());
            if eq_lit(sc.as_slice(), "http") || eq_lit(sc.as_slice(), "https") {
                Ok(Some(text))
            } else {
                let mut msg = String::from_str(field);
                msg.append(" must use http or https");
                Err(AppError::Validation(msg))
            }
        },
    }
}

/// Whether a browser request's `Origin` header names the public site: both
/// must parse to the same (scheme, host, port) origin.
pub open spec fn spec_same_origin(supplied: Option<Seq<char>>, public_base_url: Seq<char>) -> bool {
    match supplied {
        None => false,
        Some(s) => spec_url_origin(s) is Some && spec_url_origin(s) == spec_url_origin(public_base_url),
    }
}

/// Refuses a state-changing browser request that does not come from the
/// public site itself.
pub fn require_same_origin(origin_header: Option<&str>, public_base_url: &str) -> (r: AppResult<()>)
    ensures
        r is Ok <==> spec_same_origin(
            match origin_header {
                Some(o) => Some(o@),
                None => None,
            },
            public_base_url@,
        ),
        r matches Err(e) ==> e is Forbidden,
{
    let supplied = match origin_header {
        Some(o) => o,
        None => {
            return Err(AppError::Forbidden);
        },
    };
    let a = match url_origin(supplied) {
        Some(a) => a,
        None => {
            return Err(AppError::Forbidden);
        },
    };
    let b = match url_origin(public_base_url) {
        Some(b) => b,
        None => {
            return Err(AppError::Forbidden);
        },
    };
    let ac = chars_of(a.as_str());
    let bc = chars_of(b.as_str());
    if !same_chars(ac.as_slice(), bc.as_slice()) {
        return Err(AppError::Forbidden);
    }
    Ok(())
}

/// The non-blank trimmed pieces of `s` between commas, in order.
pub open spec fn comma_list(s: Seq<char>) -> Seq<Seq<char>> {
    nonblank(split(s, ',').map_values(|p: Seq<char>| trim(p)))
}

/// The non-empty elements of `parts`, in order.
pub open spec fn nonblank(parts: Seq<Seq<char>>) -> Seq<Seq<char>>
    decreases parts.len(),
{
    if parts.len() == 0 {
        parts
    } else if parts.last().len() == 0 {
        nonblank(parts.drop_last())
    } else {
        nonblank(parts.drop_last()).push(parts.last())
    }
}

/// The trimmed, non-blank pieces of comma-separated text.
pub fn split_comma_list(s: &str) -> (r: Vec<String>)
    ensures
        r@.map_values(|x: String| x@) == comma_list(s@),
{
    let chars = chars_of(s);
    let pieces = split_chars(chars.as_slice(), ',');
    let ghost trimmed = split(s@, ',').map_values(|p: Seq<char>| trim(p));
    let mut out: Vec<String> = Vec::new();
    let mut i: usize = 0;
    while i < pieces.len()
        invariant
            i <= pieces@.len(),
            pieces@.len() == split(s@, ',').len(),
            forall|k: int| 0 <= k < pieces@.len() ==> #[trigger] pieces@[k]@ == split(s@, ',')[k],
            trimmed == split(s@, ',').map_values(|p: Seq<char>| trim(p)),
            out@.map_values(|x: String| x@) == nonblank(trimmed.take(i as int)),
        decreases pieces@.len() - i,
    {
        assert(trimmed.take(i + 1).drop_last() =~= trimmed.take(i as int));
        let t = trim_chars(pieces[i].as_slice());
        let ghost before = out@;
        if t.len() > 0 {
            out.push(string_from(t.as_slice()));
            assert(out@.map_values(|x: String| x@) =~= before.map_values(|x: String| x@).push(t@));
        }
        i = i + 1;
    }
    assert(trimmed.take(i as int) =~= trimmed);
    out
}

/// A tag list as sent by a client: a JSON array of strings when it parses as
/// one, otherwise the trimmed, non-blank comma-separated pieces.
pub open spec fn spec_tag_field(raw: Seq<char>) -> Seq<Seq<char>> {
    match spec_json_string_list(raw) {
        Some(v) => v,
        None => comma_list(raw),
    }
}

/// Reads a tag list sent as a form field or upload metadata value.
pub fn parse_tag_field(raw: &str) -> (r: Vec<String>)
    ensures
        r@.map_values(|x: String| x@) == spec_tag_field(raw@),
{
    match json_string_list(raw) {
        Some(v) => v,
        None => split_comma_list(raw),
    }
}

} // verus!
