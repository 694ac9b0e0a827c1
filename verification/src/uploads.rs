//! The resumable upload protocol (Tus 1.0): header checks, the
//! `Upload-Metadata` encoding, disk admission, how a session is created, and
//! how each chunk moves its offset forward.
use vstd::prelude::*;

use crate::auth::str_view;
use crate::digest::{hex_encode, hex_of, spec_sha256, streamed_bytes, Sha256Stream};
use crate::error::{is_validation, AppError, AppResult};
use crate::input::{opt_view, parse_tag_field, spec_source_url, spec_tag_field, validate_source_url};
use crate::number::{parse_u64, parse_u64_spec};
use crate::storage::{
    normalized_path, normalize_virtual_path, spec_safe_filename, validated_tags, validate_tags, views_of,
    safe_filename, sniff_mime, spec_sniffed_mime, TempUpload,
};
use crate::text::{
    ascii_alnum, chars_of, contains_char, eq_lit, is_ascii_alnum, split, split_chars, split_once,
    split_once_chars, string_from, trim, trim_chars, utf8_len,
};

verus! {

// ---------------------------------------------------------------------------
// Base64
// ---------------------------------------------------------------------------

/// The value of a standard base64 digit.
pub open spec fn b64_digit(c: char) -> Option<u8> {
    if 'A' <= c && c <= 'Z' {
        Some((c as u32 - 65) as u8)
    } else if 'a' <= c && c <= 'z' {
        Some((c as u32 - 97 + 26) as u8)
    } else if '0' <= c && c <= '9' {
        Some((c as u32 - 48 + 52) as u8)
    } else if c == '+' {
        Some(62u8)
    } else if c == '/' {
        Some(63u8)
    } else {
        None
    }
}

/// The text before the first `=` (all of it when there is none).
pub open spec fn before_padding(s: Seq<char>) -> Seq<char>
    decreases s.len(),
{
    if s.len() == 0 {
        s
    } else if s[0] == '=' {
        Seq::empty()
    } else {
        seq![s[0]] + before_padding(s.drop_first())
    }
}

/// The bytes that base64 digits (values below 64) stand for: every four
/// digits give three bytes, and a final group of two or three digits gives
/// one or two; a single trailing digit gives none.
pub open spec fn digits_to_bytes(d: Seq<u8>) -> Seq<u8>
    decreases d.len(),
{
    if d.len() < 2 {
        Seq::empty()
    } else if d.len() == 2 {
        seq![(d[0] * 4 + d[1] / 16) as u8]
    } else if d.len() == 3 {
        seq![(d[0] * 4 + d[1] / 16) as u8, ((d[1] % 16) * 16 + d[2] / 4) as u8]
    } else {
        seq![(d[0] * 4 + d[1] / 16) as u8, ((d[1] % 16) * 16 + d[2] / 4) as u8, ((d[2] % 4) * 64 + d[3]) as u8]
            + digits_to_bytes(d.skip(4))
    }
}

/// The digit values of `s`, or `None` when one of its characters is not a digit.
pub open spec fn digit_values(s: Seq<char>) -> Option<Seq<u8>>
    decreases s.len(),
{
    if s.len() == 0 {
        Some(Seq::empty())
    } else {
        match (digit_values(s.drop_last()), b64_digit(s.last())) {
            (Some(d), Some(x)) => Some(d.push(x)),
            _ => None,
        }
    }
}

/// Decoding of a metadata value: everything from the first `=` on is
/// ignored, and any other character outside the base64 alphabet is refused.
pub open spec fn spec_base64(s: Seq<char>) -> Option<Seq<u8>> {
    match digit_values(before_padding(s)) {
        Some(d) => Some(digits_to_bytes(d)),
        None => None,
    }
}

/// The value of the base64 digit `c`.
fn b64_value(c: char) -> (r: Option<u8>)
    ensures
        r == b64_digit(c),
        r matches Some(d) ==> d < 64,
{
    if 'A' <= c && c <= 'Z' {
        Some((c as u32 - 65) as u8)
    } else if 'a' <= c && c <= 'z' {
        Some((c as u32 - 97 + 26) as u8)
    } else if '0' <= c && c <= '9' {
        Some((c as u32 - 48 + 52) as u8)
    } else if c == '+' {
        Some(62)
    } else if c == '/' {
        Some(63)
    } else {
        None
    }
}

proof fn lemma_digits_small(s: Seq<char>)
    ensures
        digit_values(s) matches Some(d) ==> d.len() == s.len() && forall|i: int| 0 <= i < d.len() ==> #[trigger] d[i] < 64,
    decreases s.len(),
{
    if s.len() > 0 {
        lemma_digits_small(s.drop_last());
    }
}

/// Decodes base64 text as the Tus metadata header carries it.
pub fn decode_base64(value: &str) -> (r: AppResult<Vec<u8>>)
    ensures
        match r {
            Ok(b) => spec_base64(value@) == Some(b@),
            Err(e) => spec_base64(value@) is None && is_validation(e, "invalid base64 metadata"@),
        },
{
    let chars = chars_of(value);
    let mut stop: usize = 0;
    assert(chars@.skip(0) =~= chars@);
    assert(chars@.take(0) + before_padding(chars@) =~= before_padding(chars@));
    while stop < chars.len() && chars[stop] != '='
        invariant
            stop <= chars@.len(),
            before_padding(chars@) == chars@.take(stop as int) + before_padding(chars@.skip(stop as int)),
        decreases chars@.len() - stop,
    {
        assert(chars@.skip(stop as int).drop_first() =~= chars@.skip(stop + 1));
        assert(chars@.take(stop as int) + (seq![chars@[stop as int]] + before_padding(chars@.skip(stop + 1)))
            =~= chars@.take(stop + 1) + before_padding(chars@.skip(stop + 1)));
        stop = stop + 1;
    }
    assert(before_padding(chars@) =~= chars@.take(stop as int)) by {
        if stop < chars@.len() {
            assert(chars@.skip(stop as int)[0] == '=');
        } else {
            assert(chars@.skip(stop as int) =~= Seq::<char>::empty());
        }
        assert(chars@.take(stop as int) + Seq::<char>::empty() =~= chars@.take(stop as int));
    }
    let ghost body = chars@.take(stop as int);
    let mut digits: Vec<u8> = Vec::new();
    let mut i: usize = 0;
    while i < stop
        invariant
            i <= stop <= chars@.len(),
            body == chars@.take(stop as int),
            body == before_padding(chars@),
            chars@ == value@,
            digit_values(body.take(i as int)) == Some(digits@),
            forall|k: int| 0 <= k < digits@.len() ==> #[trigger] digits@[k] < 64,
            digits@.len() == i,
        decreases stop - i,
    {
        assert(body.take(i + 1).drop_last() =~= body.take(i as int));
        assert(body.take(i + 1).last() == chars@[i as int]);
        let d = match b64_value(chars[i]) {
            Some(d) => d,
            None => {
                proof {
                    assert(digit_values(body.take(i + 1)) is None);
                    lemma_none_extends(body, i + 1);
                    assert(spec_base64(value@) is None);
                }
                return Err(AppError::Validation(String::from_str("invalid base64 metadata")));
            },
        };
        digits.push(d);
        i = i + 1;
    }
    assert(body.take(i as int) =~= body);
    let ghost all = digits@;
    let mut out: Vec<u8> = Vec::new();
    let mut g: usize = 0;
    assert(all.skip(0) =~= all);
    assert(out@ + digits_to_bytes(all) =~= digits_to_bytes(all));
    while g < digits.len() && digits.len() - g >= 4
        invariant
            all == digits@,
            forall|k: int| 0 <= k < all.len() ==> #[trigger] all[k] < 64,
            g <= all.len(),
            digits_to_bytes(all) == out@ + digits_to_bytes(all.skip(g as int)),
        decreases all.len() - g,
    {
        let d0 = digits[g];
        let d1 = digits[g + 1];
        let d2 = digits[g + 2];
        let d3 = digits[g + 3];
        let ghost rest = all.skip(g as int);
        assert(rest[0] == d0 && rest[1] == d1 && rest[2] == d2 && rest[3] == d3);
        assert(rest.skip(4) =~= all.skip(g + 4));
        let b0 = (d0 * 4 + d1 / 16) as u8;
        let b1 = ((d1 % 16) * 16 + d2 / 4) as u8;
        let b2 = ((d2 % 4) * 64 + d3) as u8;
        let ghost before = out@;
        out.push(b0);
        out.push(b1);
        out.push(b2);
        assert(out@ =~= before + seq![b0, b1, b2]);
        assert(digits_to_bytes(rest) == seq![b0, b1, b2] + digits_to_bytes(all.skip(g + 4)));
        assert(before + (seq![b0, b1, b2] + digits_to_bytes(all.skip(g + 4))) =~= out@ + digits_to_bytes(
            all.skip(g + 4),
        ));
        g = g + 4;
    }
    let ghost rest = all.skip(g as int);
    let left = digits.len() - g;
    if left >= 2 {
        let d0 = digits[g];
        let d1 = digits[g + 1];
        assert(rest[0] == d0 && rest[1] == d1);
        out.push((d0 * 4 + d1 / 16) as u8);
        if left == 3 {
            let d2 = digits[g + 2];
            assert(rest[2] == d2);
            out.push(((d1 % 16) * 16 + d2 / 4) as u8);
        }
    }
    assert(digits_to_bytes(all) =~= out@);
    Ok(out)
}

proof fn lemma_none_extends(s: Seq<char>, n: int)
    requires
        0 <= n <= s.len(),
        digit_values(s.take(n)) is None,
    ensures
        digit_values(s) is None,
    decreases s.len() - n,
{
    if n < s.len() {
        assert(s.take(n + 1).drop_last() =~= s.take(n));
        lemma_none_extends(s, n + 1);
    } else {
        assert(s.take(n) =~= s);
    }
}

} // verus!

verus! {

// ---------------------------------------------------------------------------
// Upload-Metadata
// ---------------------------------------------------------------------------

/// A metadata key: ASCII letters, digits and `-`.
pub open spec fn is_metadata_key(k: Seq<char>) -> bool {
    forall|i: int| 0 <= i < k.len() ==> is_ascii_alnum(#[trigger] k[i]) || k[i] == '-'
}

/// One `key base64value` entry of the `Upload-Metadata` header, decoded.
pub open spec fn metadata_entry(part: Seq<char>) -> Result<(Seq<char>, Seq<char>), Seq<char>> {
    match split_once(part, ' ') {
        None => Err("invalid Upload-Metadata"@),
        Some((k, enc)) => if !is_metadata_key(k) {
            Err("invalid Upload-Metadata key"@)
        } else {
            match spec_base64(enc) {
                None => Err("invalid base64 metadata"@),
                Some(b) => if vstd::utf8::valid_utf8(b) {
                    Ok((k, vstd::utf8::decode_utf8(b)))
                } else {
                    Err("Upload-Metadata must contain UTF-8 values"@)
                },
            }
        },
    }
}

/// All entries decoded in order; the first bad entry decides the error.
pub open spec fn metadata_entries(parts: Seq<Seq<char>>) -> Result<Seq<(Seq<char>, Seq<char>)>, Seq<char>>
    decreases parts.len(),
{
    if parts.len() == 0 {
        Ok(Seq::empty())
    } else {
        match metadata_entry(parts[0]) {
            Err(m) => Err(m),
            Ok(e) => match metadata_entries(parts.drop_first()) {
                Ok(rest) => Ok(seq![e] + rest),
                Err(m) => Err(m),
            },
        }
    }
}

/// The decoded `Upload-Metadata` header: its non-blank comma-separated entries.
pub open spec fn spec_metadata(header: Seq<char>) -> Result<Seq<(Seq<char>, Seq<char>)>, Seq<char>> {
    metadata_entries(crate::input::comma_list(header))
}

/// The value of `key` in decoded metadata; a later entry overrides an earlier one.
pub open spec fn metadata_value(entries: Seq<(Seq<char>, Seq<char>)>, key: Seq<char>) -> Option<Seq<char>>
    decreases entries.len(),
{
    if entries.len() == 0 {
        None
    } else if entries.last().0 == key {
        Some(entries.last().1)
    } else {
        metadata_value(entries.drop_last(), key)
    }
}

/// The views of decoded metadata entries.
pub open spec fn entry_views(v: Seq<(String, String)>) -> Seq<(Seq<char>, Seq<char>)> {
    v.map_values(|e: (String, String)| (e.0@, e.1@))
}

/// Decodes one metadata entry.
fn parse_metadata_entry(part: &str) -> (r: AppResult<(String, String)>)
    ensures
        match r {
            Ok(e) => metadata_entry(part@) == Ok::<(Seq<char>, Seq<char>), Seq<char>>((e.0@, e.1@)),
            Err(err) => metadata_entry(part@) matches Err(m) && is_validation(err, m),
        },
{
    let chars = chars_of(part);
    let (name, encoded) = match split_once_chars(chars.as_slice(), ' ') {
        Some(pair) => pair,
        None => {
            return Err(AppError::Validation(String::from_str("invalid Upload-Metadata")));
        },
    };
    let mut i: usize = 0;
    while i < name.len()
        invariant
            i <= name@.len(),
            split_once(part@, ' ') == Some((name@, encoded@)),
            forall|k: int| 0 <= k < i ==> is_ascii_alnum(#[trigger] name@[k]) || name@[k] == '-',
        decreases name@.len() - i,
    {
        if !(ascii_alnum(name[i]) || name[i] == '-') {
            assert(!is_metadata_key(name@));
            return Err(AppError::Validation(String::from_str("invalid Upload-Metadata key")));
        }
        i = i + 1;
    }
    let enc = string_from(encoded.as_slice());
    let bytes = decode_base64(enc.as_str())?;
    match crate::text::utf8_text(bytes.as_slice()) {
        Some(v) => Ok((string_from(name.as_slice()), v)),
        None => Err(AppError::Validation(String::from_str("Upload-Metadata must contain UTF-8 values"))),
    }
}

/// Decodes the `Upload-Metadata` header into key and value pairs, in order.
pub fn parse_metadata(value: &str) -> (r: AppResult<Vec<(String, String)>>)
    ensures
        match r {
            Ok(v) => spec_metadata(value@) == Ok::<Seq<(Seq<char>, Seq<char>)>, Seq<char>>(entry_views(v@)),
            Err(e) => spec_metadata(value@) matches Err(m) && is_validation(e, m),
        },
{
    let parts = crate::input::split_comma_list(value);
    let ghost all = crate::input::comma_list(value@);
    let mut out: Vec<(String, String)> = Vec::new();
    let mut i: usize = 0;
    assert(all.skip(0) =~= all);
    assert(entry_views(out@) =~= Seq::<(Seq<char>, Seq<char>)>::empty());
    proof {
        match metadata_entries(all) {
            Ok(rest) => {
                assert(Seq::<(Seq<char>, Seq<char>)>::empty() + rest =~= rest);
            },
            Err(_) => {},
        }
    }
    while i < parts.len()
        invariant
            i <= parts@.len(),
            all == crate::input::comma_list(value@),
            parts@.map_values(|x: String| x@) == all,
            metadata_entries(all) == match metadata_entries(all.skip(i as int)) {
                Ok(rest) => Ok(entry_views(out@) + rest),
                Err(m) => Err(m),
            },
        decreases parts@.len() - i,
    {
        assert(all.skip(i as int).drop_first() =~= all.skip(i + 1));
        assert(all.skip(i as int)[0] == parts@[i as int]@);
        let entry = parse_metadata_entry(parts[i].as_str())?;
        let ghost before = entry_views(out@);
        out.push(entry);
        proof {
            assert(entry_views(out@) =~= before.push((entry.0@, entry.1@)));
            match metadata_entries(all.skip(i + 1)) {
                Ok(rest) => {
                    assert(before + (seq![(entry.0@, entry.1@)] + rest) =~= before.push((entry.0@, entry.1@))
                        + rest);
                },
                Err(_) => {},
            }
        }
        i = i + 1;
    }
    assert(all.skip(i as int) =~= Seq::<Seq<char>>::empty());
    assert(entry_views(out@) + Seq::<(Seq<char>, Seq<char>)>::empty() =~= entry_views(out@));
    Ok(out)
}

/// The value of `key` in decoded metadata, the last entry winning.
pub fn metadata_get(entries: &Vec<(String, String)>, key: &str) -> (r: Option<String>)
    ensures
        opt_view(r) == metadata_value(entry_views(entries@), key@),
{
    let k = chars_of(key);
    let mut i: usize = entries.len();
    let ghost all = entry_views(entries@);
    assert(all.take(i as int) =~= all);
    while i > 0
        invariant
            i <= entries@.len(),
            all == entry_views(entries@),
            k@ == key@,
            metadata_value(all, key@) == metadata_value(all.take(i as int), key@),
        decreases i,
    {
        assert(all.take(i as int).drop_last() =~= all.take(i - 1));
        let name = chars_of(entries[i - 1].0.as_str());
        if crate::text::same_chars(name.as_slice(), k.as_slice()) {
            return Some(entries[i - 1].1.clone());
        }
        i = i - 1;
    }
    None
}

} // verus!

verus! {

// ---------------------------------------------------------------------------
// Protocol checks
// ---------------------------------------------------------------------------

/// The protocol version this server speaks.
pub const TUS_VERSION: &'static str = "1.0.0";

/// Refuses a request that does not declare `Tus-Resumable: 1.0.0`.
pub fn require_tus(tus_resumable: Option<&str>) -> (r: AppResult<()>)
    ensures
        r is Ok <==> (tus_resumable matches Some(v) && v@ == "1.0.0"@),
        r matches Err(e) ==> is_validation(e, "Tus-Resumable must be 1.0.0"@),
{
    match tus_resumable {
        Some(v) => {
            let c = chars_of(v);
            if eq_lit(c.as_slice(), "1.0.0") {
                Ok(())
            } else {
                Err(AppError::Validation(String::from_str("Tus-Resumable must be 1.0.0")))
            }
        },
        None => Err(AppError::Validation(String::from_str("Tus-Resumable must be 1.0.0"))),
    }
}

/// The numeric value of a required header, or the error naming it.
pub open spec fn spec_u64_header(value: Option<Seq<char>>) -> Option<u64> {
    match value {
        Some(v) => parse_u64_spec(v),
        None => None,
    }
}

/// Reads a required unsigned header; `name` is used in the error message.
pub fn required_u64_header(value: Option<&str>, name: &str) -> (r: AppResult<u64>)
    ensures
        match r {
            Ok(n) => spec_u64_header(
                match value {
                    Some(v) => Some(v@),
                    None => None,
                },
            ) == Some(n),
            Err(e) => spec_u64_header(
                match value {
                    Some(v) => Some(v@),
                    None => None,
                },
            ) is None && is_validation(e, "missing or invalid "@ + name@ + " header"@),
        },
{
    let parsed = match value {
        Some(v) => {
            let c = chars_of(v);
            parse_u64(c.as_slice())
        },
        None => None,
    };
    match parsed {
        Some(n) => Ok(n),
        None => {
            let mut msg = String::from_str("missing or invalid ");
            msg.append(name);
            msg.append(" header");
            Err(AppError::Validation(msg))
        },
    }
}

/// The default per-workspace upload limit: 100 MiB.
pub const DEFAULT_WORKSPACE_LIMIT: u64 = 104857600;

/// The workspace limit used by resumable uploads: the configured value (or
/// the default), at least one byte.
pub open spec fn spec_tus_workspace_limit(configured: Option<i64>) -> u64 {
    let v: i64 = match configured {
        Some(v) => v,
        None => DEFAULT_WORKSPACE_LIMIT as i64,
    };
    if v < 1 { 1 } else { v as u64 }
}

/// The upload limit a workspace setting gives resumable uploads.
pub fn tus_workspace_limit(configured: Option<i64>) -> (r: u64)
    ensures
        r == spec_tus_workspace_limit(configured),
        r >= 1,
{
    let v: i64 = match configured {
        Some(v) => v,
        None => 104857600,
    };
    if v < 1 { 1 } else { v as u64 }
}

/// The bytes that active sessions have reserved, from the database sum
/// (negative sums count as none).
pub fn outstanding_bytes(sum: i64) -> (r: u64)
    ensures
        r == (if sum < 0 { 0 } else { sum as u64 }),
{
    if sum < 0 { 0 } else { sum as u64 }
}

/// The free space an upload needs: the protected reserve, what active
/// sessions still expect, and the incoming bytes, saturating at `u64::MAX`.
pub open spec fn spec_required_space(reserve: u64, outstanding: u64, incoming: u64) -> u64 {
    let total = reserve + outstanding + incoming;
    if total > u64::MAX { u64::MAX } else { total as u64 }
}

/// Admits an upload only if the volume keeps its reserve afterwards;
/// otherwise answers `507 Insufficient Storage` with both figures.
pub fn check_admission(available: u64, reserve: u64, outstanding: u64, incoming: u64) -> (r: AppResult<()>)
    ensures
        r is Ok <==> available >= spec_required_space(reserve, outstanding, incoming),
        r matches Err(e) ==> e == (AppError::InsufficientStorage {
            available,
            required: spec_required_space(reserve, outstanding, incoming),
        }),
        r is Ok ==> available >= reserve + outstanding + incoming || available == u64::MAX,
{
    let required = reserve.saturating_add(outstanding).saturating_add(incoming);
    if available < required {
        Err(AppError::InsufficientStorage { available, required })
    } else {
        Ok(())
    }
}

/// Reads the `Upload-Length` of a new session, which must be positive.
pub fn upload_length(value: Option<&str>) -> (r: AppResult<u64>)
    ensures
        match r {
            Ok(n) => n > 0 && spec_u64_header(
                match value {
                    Some(v) => Some(v@),
                    None => None,
                },
            ) == Some(n),
            Err(e) => match spec_u64_header(
                match value {
                    Some(v) => Some(v@),
                    None => None,
                },
            ) {
                None => is_validation(e, "missing or invalid upload-length header"@),
                Some(n) => n == 0 && is_validation(e, "Upload-Length must be greater than zero"@),
            },
        },
{
    let length = match required_u64_header(value, "upload-length") {
        Ok(n) => n,
        Err(e) => {
            proof {
                reveal_strlit("missing or invalid ");
                reveal_strlit("upload-length");
                reveal_strlit(" header");
                reveal_strlit("missing or invalid upload-length header");
                assert("missing or invalid "@ + "upload-length"@ + " header"@
                    =~= "missing or invalid upload-length header"@);
            }
            return Err(e);
        },
    };
    if length == 0 {
        return Err(AppError::Validation(String::from_str("Upload-Length must be greater than zero")));
    }
    Ok(length)
}

/// What a new resumable upload will become, as checked at creation.
pub struct UploadRequest {
    pub length: u64,
    pub filename: String,
    pub virtual_path: String,
    pub tags: Vec<String>,
    pub source_url: Option<String>,
    pub declared_mime: Option<String>,
}

/// A declared media type is kept when it is at most 255 bytes and holds no
/// line break.
pub open spec fn acceptable_declared_mime(m: Seq<char>) -> bool {
    utf8_len(m) <= 255 && !m.contains('\r') && !m.contains('\n')
}

/// The stored file name for metadata that may name one.
pub open spec fn spec_upload_filename(name: Option<Seq<char>>) -> Seq<char> {
    match name {
        Some(n) => if spec_safe_filename(n).len() > 0 { spec_safe_filename(n) } else { "upload.bin"@ },
        None => "upload.bin"@,
    }
}

/// The raw virtual path of metadata: `virtualPath`, else `path`, else `/`.
pub open spec fn spec_metadata_path(entries: Seq<(Seq<char>, Seq<char>)>) -> Seq<char> {
    match metadata_value(entries, "virtualPath"@) {
        Some(p) => p,
        None => match metadata_value(entries, "path"@) {
            Some(p) => p,
            None => "/"@,
        },
    }
}

/// The checks that creating a resumable upload of `length` bytes goes
/// through, in order, with the decoded `Upload-Metadata` header: the size
/// limit, the header size, the metadata itself, then the path, the tags and
/// the source URL it carries.
pub open spec fn spec_upload_request_ok(
    length: u64,
    limit: u64,
    metadata_header: Seq<char>,
    header_bytes: usize,
    r: UploadRequest,
) -> bool {
    &&& length <= limit
    &&& header_bytes <= 8192
    &&& spec_metadata(metadata_header) matches Ok(entries) && {
        &&& r.length == length
        &&& r.filename@ == spec_upload_filename(metadata_value(entries, "filename"@))
        &&& normalized_path(spec_metadata_path(entries), utf8_len(spec_metadata_path(entries))) == Ok::<Seq<char>, Seq<char>>(r.virtual_path@)
        &&& validated_tags(match metadata_value(entries, "tags"@) {
            Some(raw) => spec_tag_field(raw),
            None => Seq::empty(),
        }) == Ok::<Seq<Seq<char>>, Seq<char>>(views_of(r.tags@))
        &&& spec_source_url(metadata_value(entries, "sourceUrl"@), "sourceUrl"@) == Ok::<Option<Seq<char>>, Seq<char>>(opt_view(r.source_url))
        &&& opt_view(r.declared_mime) == match metadata_value(entries, "contentType"@) {
            Some(m) => if acceptable_declared_mime(m) { Some(m) } else { None },
            None => None,
        }
    }
}

/// The first validation failure of decoded metadata, if any: the metadata
/// encoding, then the virtual path, the tags and the source URL.
pub open spec fn spec_metadata_failure(metadata_header: Seq<char>) -> Option<Seq<char>> {
    match spec_metadata(metadata_header) {
        Err(m) => Some(m),
        Ok(entries) => match normalized_path(spec_metadata_path(entries), utf8_len(spec_metadata_path(entries))) {
            Err(m) => Some(m),
            Ok(_) => match validated_tags(
                match metadata_value(entries, "tags"@) {
                    Some(raw) => spec_tag_field(raw),
                    None => Seq::empty(),
                },
            ) {
                Err(m) => Some(m),
                Ok(_) => match spec_source_url(metadata_value(entries, "sourceUrl"@), "sourceUrl"@) {
                    Err(m) => Some(m),
                    Ok(_) => None,
                },
            },
        },
    }
}

/// Checks a request to create a resumable upload of `length` bytes against
/// the workspace and server limits and decodes its metadata.
pub fn plan_upload(length: u64, workspace_limit: u64, server_max: u64, metadata_header: &str) -> (r: AppResult<UploadRequest>)
    ensures
        r matches Ok(req) ==> spec_upload_request_ok(
            length,
            if workspace_limit < server_max { workspace_limit } else { server_max },
            metadata_header@,
            metadata_header.len(),
            req,
        ),
        ({
            let limit = if workspace_limit < server_max { workspace_limit } else { server_max };
            match r {
                Ok(_) => length <= limit && metadata_header.len() <= 8192 && spec_metadata_failure(
                    metadata_header@,
                ) is None,
                Err(e) => if length > limit {
                    e == (AppError::PayloadTooLarge { received: length, limit })
                } else if metadata_header.len() > 8192 {
                    is_validation(e, "Upload-Metadata is too large"@)
                } else {
                    spec_metadata_failure(metadata_header@) matches Some(m) && is_validation(e, m)
                },
            }
        }),
{
    let limit = if workspace_limit < server_max { workspace_limit } else { server_max };
    if length > limit {
        return Err(AppError::PayloadTooLarge { received: length, limit });
    }
    if metadata_header.len() > 8192 {
        return Err(AppError::Validation(String::from_str("Upload-Metadata is too large")));
    }
    let metadata = parse_metadata(metadata_header)?;
    let ghost entries = entry_views(metadata@);
    let filename = match metadata_get(&metadata, "filename") {
        Some(name) => {
            let safe = safe_filename(name.as_str());
            if safe.as_str().is_empty() {
                String::from_str("upload.bin")
            } else {
                safe
            }
        },
        None => String::from_str("upload.bin"),
    };
    let raw_path = match metadata_get(&metadata, "virtualPath") {
        Some(p) => p,
        None => match metadata_get(&metadata, "path") {
            Some(p) => p,
            None => String::from_str("/"),
        },
    };
    let virtual_path = normalize_virtual_path(raw_path.as_str())?;
    let raw_tags = match metadata_get(&metadata, "tags") {
        Some(raw) => parse_tag_field(raw.as_str()),
        None => Vec::new(),
    };
    assert(raw_tags@.len() == 0 ==> views_of(raw_tags@) =~= Seq::<Seq<char>>::empty());
    proof {
        if metadata_value(entries, "tags"@) is Some {
            assert(views_of(raw_tags@) == raw_tags@.map_values(|x: String| x@));
        }
    }
    let tags = validate_tags(raw_tags)?;
    let source_url = validate_source_url(metadata_get(&metadata, "sourceUrl"), "sourceUrl")?;
    let declared_mime = match metadata_get(&metadata, "contentType") {
        Some(m) => {
            let mc = chars_of(m.as_str());
            if m.as_str().len() <= 255 && !contains_char(mc.as_slice(), '\r') && !contains_char(mc.as_slice(), '\n') {
                Some(m)
            } else {
                None
            }
        },
        None => None,
    };
    Ok(UploadRequest { length, filename, virtual_path, tags, source_url, declared_mime })
}

} // verus!

verus! {

// ---------------------------------------------------------------------------
// Sessions and chunks
// ---------------------------------------------------------------------------

/// Where the partial file of session `id` lives below the upload root.
pub fn upload_temp_key(id: &str) -> (r: String)
    ensures
        r@ == "tmp/"@ + id@ + ".part"@,
{
    let mut out = String::from_str("tmp/");
    out.append(id);
    out.append(".part");
    out
}

/// The URL of session `id` below the public base URL.
pub fn upload_location(public_base_url: &str, id: &str) -> (r: String)
    ensures
        r@ == public_base_url@ + "/api/v1/uploads/"@ + id@,
{
    let mut out = String::from_str(public_base_url);
    out.append("/api/v1/uploads/");
    out.append(id);
    out
}

/// The headers that report a session's progress: the protocol version, the
/// confirmed offset and the total length.
pub fn tus_progress_headers(offset: u64, length: u64) -> (r: Vec<(&'static str, String)>)
    ensures
        r@.len() == 3,
        r@[0].0@ == "tus-resumable"@ && r@[0].1@ == "1.0.0"@,
        r@[1].0@ == "upload-offset"@ && r@[1].1@ == crate::number::decimal(offset as nat),
        r@[2].0@ == "upload-length"@ && r@[2].1@ == crate::number::decimal(length as nat),
{
    let mut out: Vec<(&'static str, String)> = Vec::new();
    out.push(("tus-resumable", String::from_str("1.0.0")));
    out.push(("upload-offset", crate::number::decimal_string(offset)));
    out.push(("upload-length", crate::number::decimal_string(length)));
    out
}

/// Sessions in these states are gone for good.
pub open spec fn spec_session_gone(state: Seq<char>) -> bool {
    state == "failed"@ || state == "canceled"@ || state == "expired"@
}

/// Whether a session is answered with `410 Gone`.
pub fn session_gone(state: &str) -> (r: bool)
    ensures
        r == spec_session_gone(state@),
{
    let s = chars_of(state);
    eq_lit(s.as_slice(), "failed") || eq_lit(s.as_slice(), "canceled") || eq_lit(s.as_slice(), "expired")
}

/// The error code shown in a session's status: internal bookkeeping
/// (`PROCESSING`) is not reported.
pub fn visible_error_code(code: Option<String>) -> (r: Option<String>)
    ensures
        opt_view(r) == match opt_view(code) {
            Some(c) => if c == "PROCESSING"@ { None } else { Some(c) },
            None => None,
        },
{
    match code {
        Some(c) => {
            let cc = chars_of(c.as_str());
            if eq_lit(cc.as_slice(), "PROCESSING") {
                None
            } else {
                Some(c)
            }
        },
        None => None,
    }
}

/// The offset a `PATCH` chunk claims, after checking its framing: the media
/// type, the offset header, a `Content-Length` equal to the body, and a body
/// that is neither empty nor larger than one chunk.
pub fn check_chunk_request(
    content_type: Option<&str>,
    upload_offset: Option<&str>,
    content_length: Option<&str>,
    body_len: u64,
    chunk_size: u64,
) -> (r: AppResult<u64>)
    ensures
        ({
            let type_ok = content_type matches Some(t) && t@ == "application/offset+octet-stream"@;
            let offset = spec_u64_header(
                match upload_offset {
                    Some(v) => Some(v@),
                    None => None,
                },
            );
            let declared = spec_u64_header(
                match content_length {
                    Some(v) => Some(v@),
                    None => None,
                },
            );
            match r {
                Ok(o) => type_ok && offset == Some(o) && declared == Some(body_len) && 0 < body_len
                    <= chunk_size,
                Err(e) => if !type_ok {
                    is_validation(e, "PATCH Content-Type must be application/offset+octet-stream"@)
                } else if offset is None {
                    is_validation(e, "missing or invalid upload-offset header"@)
                } else if declared is None {
                    is_validation(e, "missing or invalid content-length header"@)
                } else if declared != Some(body_len) {
                    is_validation(e, "Content-Length does not match the chunk"@)
                } else {
                    (body_len == 0 || body_len > chunk_size) && e == (AppError::PayloadTooLarge {
                        received: body_len,
                        limit: chunk_size,
                    })
                },
            }
        }),
{
    let type_ok = match content_type {
        Some(t) => {
            let tc = chars_of(t);
            eq_lit(tc.as_slice(), "application/offset+octet-stream")
        },
        None => false,
    };
    if !type_ok {
        return Err(AppError::Validation(
            String::from_str("PATCH Content-Type must be application/offset+octet-stream"),
        ));
    }
    proof {
        reveal_strlit("missing or invalid ");
        reveal_strlit(" header");
        reveal_strlit("upload-offset");
        reveal_strlit("content-length");
        reveal_strlit("missing or invalid upload-offset header");
        reveal_strlit("missing or invalid content-length header");
        assert("missing or invalid "@ + "upload-offset"@ + " header"@ =~= "missing or invalid upload-offset header"@);
        assert("missing or invalid "@ + "content-length"@ + " header"@ =~= "missing or invalid content-length header"@);
    }
    let offset = required_u64_header(upload_offset, "upload-offset")?;
    let declared = required_u64_header(content_length, "content-length")?;
    if declared != body_len {
        return Err(AppError::Validation(String::from_str("Content-Length does not match the chunk")));
    }
    if body_len == 0 || body_len > chunk_size {
        return Err(AppError::PayloadTooLarge { received: body_len, limit: chunk_size });
    }
    Ok(offset)
}

/// Where a chunk leaves a session: the offset the server had confirmed, the
/// offset after the chunk, and whether the upload is then complete.
pub struct ChunkStep {
    pub server_offset: u64,
    pub next_offset: u64,
    pub complete: bool,
}

/// Why a chunk is refused by its session.
pub enum ChunkRefusal {
    /// The session is no longer accepting bytes.
    Inactive,
    /// The chunk does not start at the confirmed offset.
    Conflict { expected: u64 },
    /// The chunk runs past the declared length.
    TooLarge { received: u64, limit: u64 },
}

/// The error that answers a refused chunk.
pub open spec fn refusal_answered_by(refusal: ChunkRefusal, e: AppError) -> bool {
    match refusal {
        ChunkRefusal::Inactive => is_validation(e, "upload is not active"@),
        ChunkRefusal::Conflict { expected } => e == (AppError::OffsetConflict { expected }),
        ChunkRefusal::TooLarge { received, limit } => e == (AppError::PayloadTooLarge { received, limit }),
    }
}

/// The outcome of appending `body_len` bytes at `offset` to a session in
/// `state` that has confirmed `acknowledged` of `expected` bytes.
pub open spec fn spec_chunk_step(
    state: Seq<char>,
    expired: bool,
    acknowledged: i64,
    expected: i64,
    offset: u64,
    body_len: u64,
) -> Result<ChunkStep, ChunkRefusal> {
    let server_offset: u64 = if acknowledged < 0 { 0 } else { acknowledged as u64 };
    let sum = offset + body_len;
    let next: u64 = if sum > u64::MAX { u64::MAX } else { sum as u64 };
    if state != "uploading"@ || expired {
        Err(ChunkRefusal::Inactive)
    } else if offset != server_offset {
        Err(ChunkRefusal::Conflict { expected: server_offset })
    } else if next > expected as u64 {
        Err(ChunkRefusal::TooLarge { received: next, limit: expected as u64 })
    } else {
        Ok(ChunkStep { server_offset, next_offset: next, complete: next == expected as u64 })
    }
}

/// Checks a chunk against its session. A chunk must start exactly at the
/// confirmed offset and may not run past the declared length; the session is
/// complete when the chunk reaches that length.
pub fn check_chunk_step(
    state: &str,
    expired: bool,
    acknowledged: i64,
    expected: i64,
    offset: u64,
    body_len: u64,
) -> (r: AppResult<ChunkStep>)
    ensures
        match (r, spec_chunk_step(state@, expired, acknowledged, expected, offset, body_len)) {
            (Ok(a), Ok(b)) => a == b,
            (Err(e), Err(refusal)) => refusal_answered_by(refusal, e),
            _ => false,
        },
        r matches Ok(step) ==> step.server_offset == offset && step.next_offset <= expected as u64 && (
        expected >= 0 ==> step.next_offset == offset + body_len),
{
    let s = chars_of(state);
    if !eq_lit(s.as_slice(), "uploading") || expired {
        return Err(AppError::Validation(String::from_str("upload is not active")));
    }
    let server_offset: u64 = if acknowledged < 0 { 0 } else { acknowledged as u64 };
    if offset != server_offset {
        return Err(AppError::OffsetConflict { expected: server_offset });
    }
    let next = offset.saturating_add(body_len);
    if next > expected as u64 {
        return Err(AppError::PayloadTooLarge { received: next, limit: expected as u64 });
    }
    Ok(ChunkStep { server_offset, next_offset: next, complete: next == expected as u64 })
}

/// What to do with the partial file before writing a chunk at the confirmed offset.
pub enum PartialFile {
    /// The file is shorter than the confirmed offset: the session fails.
    Short,
    /// The file holds bytes past the offset (an interrupted write): cut them.
    Truncate,
    /// The file ends exactly at the offset.
    Ready,
}

/// Compares the partial file's length with the confirmed offset.
pub fn partial_file_state(actual_len: u64, server_offset: u64) -> (r: PartialFile)
    ensures
        r is Short <==> actual_len < server_offset,
        r is Truncate <==> actual_len > server_offset,
        r is Ready <==> actual_len == server_offset,
{
    if actual_len < server_offset {
        PartialFile::Short
    } else if actual_len > server_offset {
        PartialFile::Truncate
    } else {
        PartialFile::Ready
    }
}

/// The session state after a chunk: `finalizing` once every byte is there.
pub fn state_after_chunk(step: &ChunkStep) -> (r: &'static str)
    ensures
        r@ == (if step.complete { "finalizing"@ } else { "uploading"@ }),
{
    if step.complete { "finalizing" } else { "uploading" }
}

/// Whether a claimed session is still waiting to be finalized.
pub fn should_finalize(current_state: Option<&str>) -> (r: bool)
    ensures
        r == (current_state matches Some(s) && s@ == "finalizing"@),
{
    match current_state {
        Some(s) => {
            let c = chars_of(s);
            eq_lit(c.as_slice(), "finalizing")
        },
        None => false,
    }
}

/// Refuses to finalize a file whose length differs from the declared one.
pub fn check_completed_length(actual: u64, expected: i64) -> (r: AppResult<()>)
    ensures
        r is Ok <==> actual == expected as u64,
        r matches Err(e) ==> is_validation(e, "completed upload length is invalid"@),
{
    if actual != expected as u64 {
        Err(AppError::Validation(String::from_str("completed upload length is invalid")))
    } else {
        Ok(())
    }
}

// ---------------------------------------------------------------------------
// Streaming a file
// ---------------------------------------------------------------------------

/// How many leading bytes of a file are kept to recognise its format.
pub const SIGNATURE_LEN: usize = 512;

/// The progress of a file being received: the bytes counted so far
/// (saturating), the limit, the first bytes kept for format detection, the
/// running SHA-256 of the bytes, and (in proofs) the bytes themselves.
pub struct StreamProgress {
    pub received: u64,
    pub limit: u64,
    pub signature: Vec<u8>,
    pub digest: Sha256Stream,
    pub data: Ghost<Seq<u8>>,
}

/// The first 512 bytes of everything received.
pub open spec fn spec_signature(data: Seq<u8>) -> Seq<u8> {
    if data.len() <= 512 { data } else { data.take(512) }
}

/// A byte count that stops at `u64::MAX`.
pub open spec fn saturating_len(n: nat) -> u64 {
    if n > u64::MAX { u64::MAX } else { n as u64 }
}

impl StreamProgress {
    /// The counters, the signature and the digest all describe the bytes
    /// received.
    pub open spec fn describes_data(&self) -> bool {
        &&& self.received == saturating_len(self.data@.len())
        &&& self.signature@ == spec_signature(self.data@)
        &&& streamed_bytes(self.digest) == self.data@
    }

    /// Nothing received yet.
    pub fn new(limit: u64) -> (r: StreamProgress)
        ensures
            r.describes_data(),
            r.data@ == Seq::<u8>::empty(),
            r.limit == limit,
    {
        StreamProgress {
            received: 0,
            limit,
            signature: Vec::new(),
            digest: Sha256Stream::new(),
            data: Ghost(Seq::empty()),
        }
    }

    /// Takes in a chunk: counts it, keeps its leading bytes while the
    /// signature is short, and feeds it to the digest. A chunk that takes
    /// the total over the limit is refused with the total it would reach.
    pub fn accept_chunk(&mut self, chunk: &[u8]) -> (r: AppResult<()>)
        requires
            old(self).describes_data(),
        ensures
            final(self).limit == old(self).limit,
            r is Ok <==> saturating_len(old(self).data@.len() + chunk@.len()) <= old(self).limit,
            r matches Err(e) ==> e == (AppError::PayloadTooLarge {
                received: saturating_len(old(self).data@.len() + chunk@.len()),
                limit: old(self).limit,
            }),
            r is Ok ==> final(self).describes_data() && final(self).data@ == old(self).data@ + chunk@,
    {
        let len = chunk.len() as u64;
        let received = self.received.saturating_add(len);
        proof {
            assert(received == saturating_len(self.data@.len() + chunk@.len()));
        }
        if received > self.limit {
            return Err(AppError::PayloadTooLarge { received, limit: self.limit });
        }
        self.received = received;
        let ghost before = self.signature@;
        let ghost old_data = self.data@;
        if self.signature.len() < 512 {
            let room = 512 - self.signature.len();
            let take = if room < chunk.len() { room } else { chunk.len() };
            let mut i: usize = 0;
            while i < take
                invariant
                    take <= chunk@.len(),
                    before.len() + take <= 512,
                    self.limit == old(self).limit,
                    self.received == received,
                    self.data@ == old_data,
                    streamed_bytes(self.digest) == old_data,
                    i <= take,
                    self.signature@ == before + chunk@.take(i as int),
                decreases take - i,
            {
                self.signature.push(chunk[i]);
                i = i + 1;
                assert(self.signature@ =~= before + chunk@.take(i as int));
            }
            assert(spec_signature(old_data + chunk@) =~= before + chunk@.take(take as int));
        } else {
            assert(spec_signature(old_data + chunk@) =~= before);
        }
        self.digest.update(chunk);
        self.data = Ghost(old_data + chunk@);
        Ok(())
    }

    /// The end of the stream: the received file, stored at `path` under
    /// `original_filename`, with its size, its media type as sniffed from
    /// its first bytes, its name and the declared type, and its SHA-256 in
    /// hexadecimal. An empty file is refused.
    pub fn into_temp_upload(self, path: String, original_filename: String, declared_mime: Option<&str>) -> (r: AppResult<TempUpload>)
        requires
            self.describes_data(),
        ensures
            match r {
                Ok(t) => {
                    &&& self.data@.len() > 0
                    &&& t.path@ == path@
                    &&& t.original_filename@ == original_filename@
                    &&& t.size_bytes == self.received
                    &&& t.mime_type@ == spec_sniffed_mime(spec_signature(self.data@), original_filename@, str_view(declared_mime))
                    &&& t.sha256@ == hex_of(spec_sha256(self.data@))
                },
                Err(e) => self.data@.len() == 0 && is_validation(e, "file cannot be empty"@),
            },
    {
        if self.received == 0 {
            return Err(AppError::Validation(String::from_str("file cannot be empty")));
        }
        let mime_type = sniff_mime(self.signature.as_slice(), original_filename.as_str(), declared_mime);
        let digest = self.digest.finalize();
        let sha256 = hex_encode(digest.as_slice());
        Ok(TempUpload { path, original_filename, mime_type, size_bytes: self.received, sha256 })
    }
}

/// The name stored for an uploaded file: its safe form, or `upload.bin`
/// when none is given or nothing of it remains.
pub fn upload_filename(name: Option<&str>) -> (r: String)
    ensures
        r@ == spec_upload_filename(
            match name {
                Some(n) => Some(n@),
                None => None,
            },
        ),
{
    match name {
        Some(n) => {
            let safe = safe_filename(n);
            if safe.as_str().is_empty() {
                String::from_str("upload.bin")
            } else {
                safe
            }
        },
        None => String::from_str("upload.bin"),
    }
}

/// The bytes a process may still write to a file system with `blocks` free
/// blocks of `block_size` bytes, saturating at `u64::MAX`.
pub fn available_bytes(blocks: u64, block_size: u64) -> (r: u64)
    ensures
        r == (if blocks * block_size > u64::MAX { u64::MAX } else { (blocks * block_size) as u64 }),
{
    match blocks.checked_mul(block_size) {
        Some(v) => v,
        None => u64::MAX,
    }
}

} // verus!
