//! How stored files are shown: which preview a file gets, how its text is
//! decoded, which byte range a `Range` header asks for, and the headers that
//! describe a file response.
use vstd::prelude::*;

use crate::error::{AppError, AppResult};
use crate::number::{decimal, decimal_string, parse_u64, parse_u64_spec};
use crate::text::{
    after_last, after_last_chars, ascii_lowercase, chars_of, contains_char, eq_any, eq_lit,
    split_once, split_once_chars, starts_with, starts_with_bytes, starts_with_lit, string_from,
    to_ascii_lowercase, utf8_text,
};

verus! {

/// What kind of preview a file gets, the media type it is served with, and
/// the language used for highlighting (empty when there is none).
pub struct PreviewClassification {
    pub kind: &'static str,
    pub mime: &'static str,
    pub language: &'static str,
}

/// The image format that a file's first bytes announce.
pub open spec fn image_signature(s: Seq<u8>) -> Option<Seq<char>> {
    if starts_with(s, seq![0x89u8, 0x50, 0x4e, 0x47, 0x0d, 0x0a, 0x1a, 0x0a]) {
        Some("image/png"@)
    } else if starts_with(s, seq![0xffu8, 0xd8, 0xff]) {
        Some("image/jpeg"@)
    } else if starts_with(s, seq![0x47u8, 0x49, 0x46, 0x38, 0x37, 0x61]) || starts_with(
        s,
        seq![0x47u8, 0x49, 0x46, 0x38, 0x39, 0x61],
    ) {
        Some("image/gif"@)
    } else if s.len() >= 12 && s.subrange(0, 4) == seq![0x52u8, 0x49, 0x46, 0x46] && s.subrange(8, 12)
        == seq![0x57u8, 0x45, 0x42, 0x50] {
        Some("image/webp"@)
    } else if starts_with(s, seq![0x42u8, 0x4d]) {
        Some("image/bmp"@)
    } else if starts_with(s, seq![0u8, 0, 1, 0]) {
        Some("image/x-icon"@)
    } else if s.len() >= 12 && s.subrange(4, 8) == seq![0x66u8, 0x74, 0x79, 0x70] && (s.subrange(8, 12)
        == seq![0x61u8, 0x76, 0x69, 0x66] || s.subrange(8, 12) == seq![0x61u8, 0x76, 0x69, 0x73]) {
        Some("image/avif"@)
    } else {
        None
    }
}

/// Media types that are text although they are not `text/*`.
pub open spec fn textual_media_types() -> Seq<Seq<char>> {
    seq!["application/json"@, "application/xml"@, "application/javascript"@, "application/x-yaml"@]
}

/// File name extensions of text formats.
pub open spec fn text_extensions() -> Seq<Seq<char>> {
    seq![
        "txt"@, "md"@, "markdown"@, "html"@, "htm"@, "css"@, "js"@, "jsx"@, "ts"@, "tsx"@,
        "json"@, "xml"@, "yaml"@, "yml"@, "toml"@, "rs"@, "py"@, "rb"@, "go"@, "java"@,
        "c"@, "h"@, "cpp"@, "hpp"@, "cs"@, "php"@, "sh"@, "bash"@, "ps1"@, "sql"@,
        "ini"@, "cfg"@, "conf"@, "log"@, "csv"@, "tsv"@, "svg"@,
    ]
}

/// The lowercased text after the last `.` of a file name.
pub open spec fn spec_extension(filename: Seq<char>) -> Seq<char> {
    ascii_lowercase(after_last(filename, '.'))
}

/// The number of zero bytes among the first 8192 bytes of `s`.
pub open spec fn zero_bytes(s: Seq<u8>) -> nat {
    crate::text::count_where(if s.len() <= 8192 { s } else { s.take(8192) }, |b: u8| b == 0)
}

/// A byte below 0x20 other than line feed, carriage return, tab and form feed.
pub open spec fn is_control_byte(b: u8) -> bool {
    b < 0x20 && b != 0x0a && b != 0x0d && b != 0x09 && b != 0x0c
}

/// The number of control bytes in `s`.
pub open spec fn control_bytes(s: Seq<u8>) -> nat {
    crate::text::count_where(s, |b: u8| is_control_byte(b))
}

/// `s` starts with a UTF-16 byte order mark, little or big endian.
pub open spec fn has_utf16_bom(s: Seq<u8>) -> bool {
    starts_with(s, seq![0xffu8, 0xfe]) || starts_with(s, seq![0xfeu8, 0xff])
}

/// A sample with many zero bytes and no UTF-16 byte order mark is binary.
pub open spec fn looks_binary(s: Seq<u8>) -> bool {
    let threshold: nat = if s.len() / 16 > 1 { s.len() / 16 } else { 1 };
    zero_bytes(s) > threshold && !has_utf16_bom(s)
}

/// A sample that reads as text: UTF-16 with a byte order mark, or valid
/// UTF-8 with few control bytes.
pub open spec fn looks_textual(s: Seq<u8>) -> bool {
    has_utf16_bom(s) || (vstd::utf8::valid_utf8(s) && control_bytes(s) <= s.len() / 32)
}

/// The highlighting language of a code file with extension `ext`.
pub open spec fn spec_language(ext: Seq<char>) -> Seq<char> {
    if ext == "js"@ || ext == "jsx"@ {
        "javascript"@
    } else if ext == "ts"@ || ext == "tsx"@ {
        "typescript"@
    } else if ext == "rs"@ {
        "rust"@
    } else if ext == "py"@ {
        "python"@
    } else if ext == "rb"@ {
        "ruby"@
    } else if ext == "sh"@ || ext == "bash"@ {
        "bash"@
    } else if ext == "ps1"@ {
        "powershell"@
    } else if ext == "c"@ || ext == "h"@ {
        "c"@
    } else if ext == "cpp"@ || ext == "hpp"@ {
        "cpp"@
    } else if ext == "cs"@ {
        "csharp"@
    } else if ext == "json"@ {
        "json"@
    } else if ext == "css"@ {
        "css"@
    } else if ext == "sql"@ {
        "sql"@
    } else if ext == "toml"@ {
        "toml"@
    } else if ext == "java"@ {
        "java"@
    } else if ext == "go"@ {
        "go"@
    } else {
        "text"@
    }
}

/// The preview kind and language of a textual file with extension `ext`.
pub open spec fn text_kind_and_language(ext: Seq<char>) -> (Seq<char>, Seq<char>) {
    if ext == "md"@ || ext == "markdown"@ {
        ("markdown"@, "markdown"@)
    } else if ext == "html"@ || ext == "htm"@ {
        ("html"@, "html"@)
    } else if ext == "txt"@ || ext == "log"@ {
        ("text"@, "text"@)
    } else if ext == "svg"@ || ext == "xml"@ {
        ("code"@, "xml"@)
    } else if ext == "yml"@ || ext == "yaml"@ {
        ("code"@, "yaml"@)
    } else if ext.len() > 0 {
        ("code"@, spec_language(ext))
    } else {
        ("text"@, "text"@)
    }
}

/// The preview of a file, from a sample of its first bytes, its stored media
/// type and its name: `(kind, media type, language)`. A PDF or image
/// signature wins; otherwise a file is previewed as text only when its type,
/// name or content says text and the sample is not binary.
pub open spec fn spec_classify(sample: Seq<u8>, mime: Seq<char>, filename: Seq<char>) -> (Seq<char>, Seq<char>, Seq<char>) {
    if starts_with(sample, seq![0x25u8, 0x50, 0x44, 0x46, 0x2d]) {
        ("pdf"@, "application/pdf"@, Seq::empty())
    } else if image_signature(sample) is Some {
        ("image"@, image_signature(sample)->0, Seq::empty())
    } else {
        let ext = spec_extension(filename);
        let textual_mime = starts_with(mime, "text/"@) || textual_media_types().contains(mime)
            || text_extensions().contains(ext);
        if (!textual_mime && !looks_textual(sample)) || looks_binary(sample) {
            ("unsupported"@, "application/octet-stream"@, Seq::empty())
        } else {
            let (kind, language) = text_kind_and_language(ext);
            (kind, "text/plain; charset=utf-8"@, language)
        }
    }
}

/// `std::str::from_utf8(bytes).is_ok()`: whether `bytes` is well-formed UTF-8.
#[verifier::external_body]
fn is_utf8(bytes: &[u8]) -> (r: bool)
    ensures
        r == vstd::utf8::valid_utf8(bytes@),
{
    std::str::from_utf8(bytes).is_ok()
}

/// The highlighting language for a code file's extension.
pub fn language_for_extension(ext: &str) -> (r: &'static str)
    ensures
        r@ == spec_language(ext@),
{
    let c = chars_of(ext);
    language_for_chars(c.as_slice())
}

/// The highlighting language for an extension given as characters.
fn language_for_chars(ext: &[char]) -> (r: &'static str)
    ensures
        r@ == spec_language(ext@),
{
    if eq_lit(ext, "js") || eq_lit(ext, "jsx") {
        "javascript"
    } else if eq_lit(ext, "ts") || eq_lit(ext, "tsx") {
        "typescript"
    } else if eq_lit(ext, "rs") {
        "rust"
    } else if eq_lit(ext, "py") {
        "python"
    } else if eq_lit(ext, "rb") {
        "ruby"
    } else if eq_lit(ext, "sh") || eq_lit(ext, "bash") {
        "bash"
    } else if eq_lit(ext, "ps1") {
        "powershell"
    } else if eq_lit(ext, "c") || eq_lit(ext, "h") {
        "c"
    } else if eq_lit(ext, "cpp") || eq_lit(ext, "hpp") {
        "cpp"
    } else if eq_lit(ext, "cs") {
        "csharp"
    } else if eq_lit(ext, "json") {
        "json"
    } else if eq_lit(ext, "css") {
        "css"
    } else if eq_lit(ext, "sql") {
        "sql"
    } else if eq_lit(ext, "toml") {
        "toml"
    } else if eq_lit(ext, "java") {
        "java"
    } else if eq_lit(ext, "go") {
        "go"
    } else {
        "text"
    }
}

/// Counts the zero bytes among the first 8192 bytes and the control bytes of `s`.
fn byte_counts(s: &[u8]) -> (r: (usize, usize))
    ensures
        r.0 == zero_bytes(s@),
        r.1 == control_bytes(s@),
{
    let ghost head = if s@.len() <= 8192 { s@ } else { s@.take(8192) };
    let mut zeros: usize = 0;
    let mut controls: usize = 0;
    let mut i: usize = 0;
    while i < s.len()
        invariant
            i <= s@.len(),
            head == if s@.len() <= 8192 { s@ } else { s@.take(8192) },
            zeros == crate::text::count_where(head.take(if i <= 8192 { i as int } else { 8192 }), |b: u8| b == 0),
            controls == crate::text::count_where(s@.take(i as int), |b: u8| is_control_byte(b)),
            zeros <= i,
            controls <= i,
        decreases s@.len() - i,
    {
        let b = s[i];
        assert(s@.take(i + 1).drop_last() =~= s@.take(i as int));
        if i < 8192 {
            assert(head.take(i + 1).drop_last() =~= head.take(i as int));
            assert(head.take(i + 1).last() == b);
            if b == 0 {
                zeros = zeros + 1;
            }
        }
        if b < 0x20 && b != 0x0a && b != 0x0d && b != 0x09 && b != 0x0c {
            controls = controls + 1;
        }
        i = i + 1;
    }
    assert(s@.take(i as int) =~= s@);
    assert(head.take(if i <= 8192 { i as int } else { 8192 }) =~= head);
    (zeros, controls)
}

/// Decides how a stored file is previewed from its first bytes, its stored
/// media type and its name.
pub fn classify_preview(sample: &[u8], mime: &str, filename: &str) -> (r: PreviewClassification)
    ensures
        (r.kind@, r.mime@, r.language@) == spec_classify(sample@, mime@, filename@),
{
    let pdf: [u8; 5] = [0x25, 0x50, 0x44, 0x46, 0x2d];
    assert(pdf@ =~= seq![0x25u8, 0x50, 0x44, 0x46, 0x2d]);
    proof {
        reveal_strlit("");
        assert(""@ =~= Seq::<char>::empty());
    }
    if starts_with_bytes(sample, &pdf) {
        return PreviewClassification { kind: "pdf", mime: "application/pdf", language: "" };
    }
    let image = image_mime(sample);
    match image {
        Some(m) => {
            return PreviewClassification { kind: "image", mime: m, language: "" };
        },
        None => {},
    }
    let name = chars_of(filename);
    let ext = to_ascii_lowercase(after_last_chars(name.as_slice(), '.').as_slice());
    let m = chars_of(mime);
    let media: [&str; 4] = ["application/json", "application/xml", "application/javascript", "application/x-yaml"];
    let exts: [&str; 37] = [
        "txt", "md", "markdown", "html", "htm", "css", "js", "jsx", "ts", "tsx",
        "json", "xml", "yaml", "yml", "toml", "rs", "py", "rb", "go", "java",
        "c", "h", "cpp", "hpp", "cs", "php", "sh", "bash", "ps1", "sql",
        "ini", "cfg", "conf", "log", "csv", "tsv", "svg",
    ];
    let textual_mime = starts_with_lit(m.as_slice(), "text/") || eq_any(m.as_slice(), &media) || eq_any(
        ext.as_slice(),
        &exts,
    );
    proof {
        assert(textual_media_types() =~= media@.map_values(|s: &str| s@));
        assert(text_extensions() =~= exts@.map_values(|s: &str| s@));
        lemma_in_list(m@, media@);
        lemma_in_list(ext@, exts@);
    }
    let (zeros, controls) = byte_counts(sample);
    let ff_fe: [u8; 2] = [0xff, 0xfe];
    let fe_ff: [u8; 2] = [0xfe, 0xff];
    assert(ff_fe@ =~= seq![0xffu8, 0xfe]);
    assert(fe_ff@ =~= seq![0xfeu8, 0xff]);
    let bom = starts_with_bytes(sample, &ff_fe) || starts_with_bytes(sample, &fe_ff);
    let sixteenth = sample.len() / 16;
    let threshold = if sixteenth > 1 { sixteenth } else { 1 };
    let binary = zeros > threshold && !bom;
    let textual_sample = bom || (is_utf8(sample) && controls <= sample.len() / 32);
    if (!textual_mime && !textual_sample) || binary {
        return PreviewClassification { kind: "unsupported", mime: "application/octet-stream", language: "" };
    }
    let e = ext.as_slice();
    if eq_lit(e, "md") || eq_lit(e, "markdown") {
        PreviewClassification { kind: "markdown", mime: "text/plain; charset=utf-8", language: "markdown" }
    } else if eq_lit(e, "html") || eq_lit(e, "htm") {
        PreviewClassification { kind: "html", mime: "text/plain; charset=utf-8", language: "html" }
    } else if eq_lit(e, "txt") || eq_lit(e, "log") {
        PreviewClassification { kind: "text", mime: "text/plain; charset=utf-8", language: "text" }
    } else if eq_lit(e, "svg") || eq_lit(e, "xml") {
        PreviewClassification { kind: "code", mime: "text/plain; charset=utf-8", language: "xml" }
    } else if eq_lit(e, "yml") || eq_lit(e, "yaml") {
        PreviewClassification { kind: "code", mime: "text/plain; charset=utf-8", language: "yaml" }
    } else if e.len() > 0 {
        PreviewClassification {
            kind: "code",
            mime: "text/plain; charset=utf-8",
            language: language_for_chars(e),
        }
    } else {
        PreviewClassification { kind: "text", mime: "text/plain; charset=utf-8", language: "text" }
    }
}

/// `v` spells one of `options`.
pub open spec fn eq_any_holds(v: Seq<char>, options: Seq<&str>) -> bool {
    exists|i: int| 0 <= i < options.len() && v == (#[trigger] options[i])@
}

proof fn lemma_in_list(v: Seq<char>, options: Seq<&str>)
    ensures
        eq_any_holds(v, options) == options.map_values(|s: &str| s@).contains(v),
{
    if eq_any_holds(v, options) {
        let i = choose|i: int| 0 <= i < options.len() && v == (#[trigger] options[i])@;
        assert(options.map_values(|s: &str| s@)[i] == v);
    }
    let views = options.map_values(|s: &str| s@);
    if views.contains(v) {
        let i = choose|i: int| 0 <= i < views.len() && #[trigger] views[i] == v;
        assert(v == options[i]@);
    }
}

/// Whether `s` holds `p` at offset `off`.
fn bytes_at(s: &[u8], off: usize, p: &[u8]) -> (r: bool)
    requires
        off <= 16,
        p@.len() <= 16,
    ensures
        r == (s@.len() >= off + p@.len() && s@.subrange(off as int, off + p@.len()) == p@),
{
    if s.len() < off + p.len() {
        return false;
    }
    let mut i: usize = 0;
    while i < p.len()
        invariant
            s@.len() >= off + p@.len(),
            off <= 16,
            p@.len() <= 16,
            i <= p@.len(),
            forall|k: int| 0 <= k < i ==> s@[off + k] == p@[k],
        decreases p@.len() - i,
    {
        if s[off + i] != p[i] {
            assert(s@.subrange(off as int, off + p@.len())[i as int] != p@[i as int]);
            return false;
        }
        i = i + 1;
    }
    assert(s@.subrange(off as int, off + p@.len()) =~= p@);
    true
}

/// The image media type announced by the first bytes of `s`.
fn image_mime(s: &[u8]) -> (r: Option<&'static str>)
    ensures
        match r {
            Some(m) => image_signature(s@) == Some(m@),
            None => image_signature(s@) is None,
        },
{
    let png: [u8; 8] = [0x89, 0x50, 0x4e, 0x47, 0x0d, 0x0a, 0x1a, 0x0a];
    let jpeg: [u8; 3] = [0xff, 0xd8, 0xff];
    let gif87: [u8; 6] = [0x47, 0x49, 0x46, 0x38, 0x37, 0x61];
    let gif89: [u8; 6] = [0x47, 0x49, 0x46, 0x38, 0x39, 0x61];
    let riff: [u8; 4] = [0x52, 0x49, 0x46, 0x46];
    let webp: [u8; 4] = [0x57, 0x45, 0x42, 0x50];
    let bmp: [u8; 2] = [0x42, 0x4d];
    let ico: [u8; 4] = [0, 0, 1, 0];
    let ftyp: [u8; 4] = [0x66, 0x74, 0x79, 0x70];
    let avif: [u8; 4] = [0x61, 0x76, 0x69, 0x66];
    let avis: [u8; 4] = [0x61, 0x76, 0x69, 0x73];
    assert(png@ =~= seq![0x89u8, 0x50, 0x4e, 0x47, 0x0d, 0x0a, 0x1a, 0x0a]);
    assert(jpeg@ =~= seq![0xffu8, 0xd8, 0xff]);
    assert(gif87@ =~= seq![0x47u8, 0x49, 0x46, 0x38, 0x37, 0x61]);
    assert(gif89@ =~= seq![0x47u8, 0x49, 0x46, 0x38, 0x39, 0x61]);
    assert(riff@ =~= seq![0x52u8, 0x49, 0x46, 0x46]);
    assert(webp@ =~= seq![0x57u8, 0x45, 0x42, 0x50]);
    assert(bmp@ =~= seq![0x42u8, 0x4d]);
    assert(ico@ =~= seq![0u8, 0, 1, 0]);
    assert(ftyp@ =~= seq![0x66u8, 0x74, 0x79, 0x70]);
    assert(avif@ =~= seq![0x61u8, 0x76, 0x69, 0x66]);
    assert(avis@ =~= seq![0x61u8, 0x76, 0x69, 0x73]);
    let long = s.len() >= 12;
    if starts_with_bytes(s, &png) {
        Some("image/png")
    } else if starts_with_bytes(s, &jpeg) {
        Some("image/jpeg")
    } else if starts_with_bytes(s, &gif87) || starts_with_bytes(s, &gif89) {
        Some("image/gif")
    } else if long && bytes_at(s, 0, &riff) && bytes_at(s, 8, &webp) {
        Some("image/webp")
    } else if starts_with_bytes(s, &bmp) {
        Some("image/bmp")
    } else if starts_with_bytes(s, &ico) {
        Some("image/x-icon")
    } else if long && bytes_at(s, 4, &ftyp) && (bytes_at(s, 8, &avif) || bytes_at(s, 8, &avis)) {
        Some("image/avif")
    } else {
        None
    }
}

// ---------------------------------------------------------------------------
// Text decoding
// ---------------------------------------------------------------------------

/// UTF-16 decoding, as `String::from_utf16` performs it: surrogate pairs
/// combine into one character, and an unpaired surrogate makes the whole
/// input invalid.
pub open spec fn decode_utf16(w: Seq<u16>) -> Option<Seq<char>>
    decreases w.len(),
{
    if w.len() == 0 {
        Some(Seq::empty())
    } else if w[0] < 0xd800 || w[0] > 0xdfff {
        match decode_utf16(w.drop_first()) {
            Some(rest) => Some(seq![(w[0] as u32) as char] + rest),
            None => None,
        }
    } else if w[0] <= 0xdbff && w.len() >= 2 && 0xdc00 <= w[1] && w[1] <= 0xdfff {
        let code = 0x10000 + (w[0] - 0xd800) * 0x400 + (w[1] - 0xdc00);
        match decode_utf16(w.skip(2)) {
            Some(rest) => Some(seq![(code as u32) as char] + rest),
            None => None,
        }
    } else {
        None
    }
}

/// The 16-bit words of `b`, two bytes each, little endian when `le` and big
/// endian otherwise; an odd final byte is ignored.
pub open spec fn words_of(b: Seq<u8>, le: bool) -> Seq<u16> {
    Seq::new(
        b.len() / 2,
        |i: int|
            if le {
                (b[2 * i] + b[2 * i + 1] * 256) as u16
            } else {
                (b[2 * i] * 256 + b[2 * i + 1]) as u16
            },
    )
}

/// How `encoding_rs::WINDOWS_1252.decode` reads `bytes` (it honours a
/// leading byte order mark). Its tables are not restated here.
pub uninterp spec fn spec_windows_1252_decode(bytes: Seq<u8>) -> Seq<char>;

/// `String::from_utf16`: the text of UTF-16 words, or `None` when they are
/// not valid UTF-16.
#[verifier::external_body]
fn utf16_text(words: &[u16]) -> (r: Option<String>)
    ensures
        match r {
            Some(t) => decode_utf16(words@) == Some(t@),
            None => decode_utf16(words@) is None,
        },
{
    match String::from_utf16(words) {
        Ok(t) => Some(t),
        Err(_) => None,
    }
}

/// `encoding_rs::WINDOWS_1252.decode(bytes)`: the decoded text (malformed
/// input becomes replacement characters, so it always succeeds).
#[verifier::external_body]
fn windows_1252_text(bytes: &[u8]) -> (r: String)
    requires
        bytes@.len() <= usize::MAX / 4,
    ensures
        r@ == spec_windows_1252_decode(bytes@),
{
    let (decoded, _, _) = encoding_rs::WINDOWS_1252.decode(bytes);
    decoded.into_owned()
}

/// The text shown for a file's bytes: UTF-16 when a byte order mark says so
/// (invalid UTF-16 cannot be previewed), otherwise UTF-8 without its byte
/// order mark, falling back to Windows-1252.
pub open spec fn spec_decoded_text(b: Seq<u8>) -> Option<Seq<char>> {
    if starts_with(b, seq![0xffu8, 0xfe]) {
        decode_utf16(words_of(b.skip(2), true))
    } else if starts_with(b, seq![0xfeu8, 0xff]) {
        decode_utf16(words_of(b.skip(2), false))
    } else {
        let body = if starts_with(b, seq![0xefu8, 0xbb, 0xbf]) { b.skip(3) } else { b };
        if vstd::utf8::valid_utf8(body) {
            Some(vstd::utf8::decode_utf8(body))
        } else {
            Some(spec_windows_1252_decode(body))
        }
    }
}

/// The 16-bit words of `b` after its first two bytes.
fn words_after_bom(b: &[u8], le: bool) -> (w: Vec<u16>)
    requires
        b@.len() >= 2,
    ensures
        w@ == words_of(b@.skip(2), le),
{
    let ghost body = b@.skip(2);
    let blen = b.len();
    let n = (blen - 2) / 2;
    let mut w: Vec<u16> = Vec::new();
    let mut i: usize = 0;
    while i < n
        invariant
            body == b@.skip(2),
            b@.len() >= 2,
            blen == b@.len(),
            body.len() == b@.len() - 2,
            n == body.len() / 2,
            i <= n,
            w@ == words_of(body, le).take(i as int),
        decreases n - i,
    {
        assert(2 * i + 1 < body.len()) by (nonlinear_arith)
            requires i < n, n == body.len() / 2;
        let lo = b[2 + 2 * i];
        let hi = b[2 + 2 * i + 1];
        assert(lo == body[2 * i] && hi == body[2 * i + 1]);
        let word: u16 = if le { (lo as u16) + (hi as u16) * 256 } else { (lo as u16) * 256 + (hi as u16) };
        w.push(word);
        i = i + 1;
        assert(w@ =~= words_of(body, le).take(i as int));
    }
    assert(words_of(body, le).take(n as int) =~= words_of(body, le));
    w
}

/// Decodes a file's bytes for a text preview.
pub fn decode_text(bytes: &[u8]) -> (r: AppResult<String>)
    requires
        bytes@.len() <= usize::MAX / 4,
    ensures
        match r {
            Ok(t) => spec_decoded_text(bytes@) == Some(t@),
            Err(e) => spec_decoded_text(bytes@) is None && e is PreviewUnavailable,
        },
{
    let ff_fe: [u8; 2] = [0xff, 0xfe];
    let fe_ff: [u8; 2] = [0xfe, 0xff];
    let bom8: [u8; 3] = [0xef, 0xbb, 0xbf];
    assert(ff_fe@ =~= seq![0xffu8, 0xfe]);
    assert(fe_ff@ =~= seq![0xfeu8, 0xff]);
    assert(bom8@ =~= seq![0xefu8, 0xbb, 0xbf]);
    if starts_with_bytes(bytes, &ff_fe) {
        let words = words_after_bom(bytes, true);
        return match utf16_text(words.as_slice()) {
            Some(t) => Ok(t),
            None => Err(AppError::PreviewUnavailable),
        };
    }
    if starts_with_bytes(bytes, &fe_ff) {
        let words = words_after_bom(bytes, false);
        return match utf16_text(words.as_slice()) {
            Some(t) => Ok(t),
            None => Err(AppError::PreviewUnavailable),
        };
    }
    let skip: usize = if starts_with_bytes(bytes, &bom8) { 3 } else { 0 };
    let mut body: Vec<u8> = Vec::new();
    let mut i: usize = skip;
    while i < bytes.len()
        invariant
            skip <= i <= bytes@.len(),
            skip <= bytes@.len(),
            body@ == bytes@.subrange(skip as int, i as int),
        decreases bytes@.len() - i,
    {
        body.push(bytes[i]);
        i = i + 1;
        assert(body@ =~= bytes@.subrange(skip as int, i as int));
    }
    assert(body@ =~= bytes@.skip(skip as int));
    assert(skip == 0 ==> bytes@.skip(0) =~= bytes@);
    match utf8_text(body.as_slice()) {
        Some(t) => Ok(t),
        None => Ok(windows_1252_text(body.as_slice())),
    }
}

// ---------------------------------------------------------------------------
// Byte ranges
// ---------------------------------------------------------------------------

/// The inclusive byte range `(start, end)` that a `Range` header value asks
/// for in a file of `size` bytes, or `None` when it cannot be satisfied:
/// only one `bytes=` range, either `a-b`, `a-` or the suffix form `-n`.
pub open spec fn spec_range(value: Seq<char>, size: u64) -> Option<(u64, u64)> {
    if !starts_with(value, "bytes="@) {
        None
    } else {
        let v = value.skip(6);
        if v.contains(',') || size == 0 {
            None
        } else {
            match split_once(v, '-') {
                None => None,
                Some((a, b)) => {
                    let bounds: Option<(u64, u64)> = if a.len() == 0 {
                        match parse_u64_spec(b) {
                            Some(n) => if n == 0 {
                                None
                            } else {
                                Some((if n >= size { 0u64 } else { (size - n) as u64 }, (size - 1) as u64))
                            },
                            None => None,
                        }
                    } else {
                        match parse_u64_spec(a) {
                            None => None,
                            Some(start) => {
                                let end: Option<u64> = if b.len() == 0 {
                                    Some((size - 1) as u64)
                                } else {
                                    parse_u64_spec(b)
                                };
                                match end {
                                    None => None,
                                    Some(e) => Some((start, if e < size - 1 { e } else { (size - 1) as u64 })),
                                }
                            },
                        }
                    };
                    match bounds {
                        Some((s, e)) => if s >= size || s > e {
                            None
                        } else {
                            Some((s, e))
                        },
                        None => None,
                    }
                },
            }
        }
    }
}

/// Parses a `Range` header against a file of `size` bytes. Every failure is
/// answered with `416 Range Not Satisfiable`, naming the size.
pub fn parse_range(value: &str, size: u64) -> (r: AppResult<(u64, u64)>)
    ensures
        match r {
            Ok(bounds) => spec_range(value@, size) == Some(bounds),
            Err(e) => spec_range(value@, size) is None && e == (AppError::RangeNotSatisfiable { size }),
        },
        r matches Ok((s, e)) ==> s <= e && e < size,
{
    let chars = chars_of(value);
    if !starts_with_lit(chars.as_slice(), "bytes=") {
        return Err(AppError::RangeNotSatisfiable { size });
    }
    proof {
        reveal_strlit("bytes=");
    }
    let mut rest: Vec<char> = Vec::new();
    let mut i: usize = 6;
    while i < chars.len()
        invariant
            6 <= i <= chars@.len(),
            rest@ == chars@.subrange(6, i as int),
        decreases chars@.len() - i,
    {
        rest.push(chars[i]);
        i = i + 1;
        assert(rest@ =~= chars@.subrange(6, i as int));
    }
    assert(rest@ =~= value@.skip(6));
    if contains_char(rest.as_slice(), ',') || size == 0 {
        return Err(AppError::RangeNotSatisfiable { size });
    }
    let (a, b) = match split_once_chars(rest.as_slice(), '-') {
        Some(pair) => pair,
        None => {
            return Err(AppError::RangeNotSatisfiable { size });
        },
    };
    let (start, end) = if a.len() == 0 {
        let n = match parse_u64(b.as_slice()) {
            Some(n) => n,
            None => {
                return Err(AppError::RangeNotSatisfiable { size });
            },
        };
        if n == 0 {
            return Err(AppError::RangeNotSatisfiable { size });
        }
        (size.saturating_sub(n), size - 1)
    } else {
        let start = match parse_u64(a.as_slice()) {
            Some(n) => n,
            None => {
                return Err(AppError::RangeNotSatisfiable { size });
            },
        };
        let end = if b.len() == 0 {
            size - 1
        } else {
            match parse_u64(b.as_slice()) {
                Some(n) => n,
                None => {
                    return Err(AppError::RangeNotSatisfiable { size });
                },
            }
        };
        (start, if end < size - 1 { end } else { size - 1 })
    };
    if start >= size || start > end {
        return Err(AppError::RangeNotSatisfiable { size });
    }
    Ok((start, end))
}

// ---------------------------------------------------------------------------
// File responses
// ---------------------------------------------------------------------------

/// Which bytes of a file a response carries, and whether it answers a range.
pub struct RangePlan {
    pub start: u64,
    pub end: u64,
    pub partial: bool,
    pub length: u64,
}

/// Plans a file response for an optional `Range` header: the whole file with
/// status 200, or the requested range with status 206.
pub fn plan_file_range(range: Option<&str>, size: u64) -> (r: AppResult<RangePlan>)
    ensures
        match range {
            None => r matches Ok(p) && p.start == 0 && p.end == (if size == 0 { 0 } else { size - 1 })
                && !p.partial && p.length == size,
            Some(v) => match r {
                Ok(p) => spec_range(v@, size) == Some((p.start, p.end)) && p.partial && p.length == p.end
                    - p.start + 1,
                Err(e) => spec_range(v@, size) is None && e == (AppError::RangeNotSatisfiable { size }),
            },
        },
        r matches Ok(p) ==> p.start + p.length <= size,
{
    match range {
        Some(v) => {
            let (start, end) = parse_range(v, size)?;
            Ok(RangePlan { start, end, partial: true, length: end - start + 1 })
        },
        None => {
            let end = if size == 0 { 0 } else { size - 1 };
            Ok(RangePlan { start: 0, end, partial: false, length: size })
        },
    }
}

/// The `Content-Range` value of a partial response.
pub fn content_range(start: u64, end: u64, size: u64) -> (r: String)
    ensures
        r@ == "bytes "@ + decimal(start as nat) + "-"@ + decimal(end as nat) + "/"@ + decimal(size as nat),
{
    let mut out = String::from_str("bytes ");
    out.append(decimal_string(start).as_str());
    out.append("-");
    out.append(decimal_string(end).as_str());
    out.append("/");
    out.append(decimal_string(size).as_str());
    out
}

/// `s` with carriage returns, line feeds and double quotes replaced by `_`.
pub open spec fn spec_sanitize_filename(s: Seq<char>) -> Seq<char> {
    s.map_values(|c: char| if c == '\r' || c == '\n' || c == '"' { '_' } else { c })
}

/// Makes a file name safe inside a quoted header parameter.
pub fn sanitize_filename(filename: &str) -> (r: String)
    ensures
        r@ == spec_sanitize_filename(filename@),
{
    let v = chars_of(filename);
    let mut out: Vec<char> = Vec::new();
    let mut i: usize = 0;
    while i < v.len()
        invariant
            i <= v@.len(),
            out@ == spec_sanitize_filename(v@.take(i as int)),
        decreases v@.len() - i,
    {
        let c = v[i];
        out.push(if c == '\r' || c == '\n' || c == '"' { '_' } else { c });
        i = i + 1;
        assert(out@ =~= spec_sanitize_filename(v@.take(i as int)));
    }
    assert(v@.take(i as int) =~= v@);
    string_from(out.as_slice())
}

/// The `Content-Disposition` value for serving a file under `filename`.
pub fn content_disposition(disposition: &str, filename: &str) -> (r: String)
    ensures
        r@ == disposition@ + "; filename=\""@ + spec_sanitize_filename(filename@) + "\""@,
{
    let mut out = String::from_str(disposition);
    out.append("; filename=\"");
    out.append(sanitize_filename(filename).as_str());
    out.append("\"");
    out
}

/// Whether a download is shown in the browser: only raster images are, and
/// only when the client did not ask for a download.
pub open spec fn spec_download_inline(download_param: Option<Seq<char>>, mime: Seq<char>) -> bool {
    download_param != Some("1"@) && starts_with(mime, "image/"@) && mime != "image/svg+xml"@
}

/// The disposition of a download: `inline` for raster images unless the
/// query asks for `download=1`, `attachment` for everything else.
pub fn download_disposition(download_param: Option<&str>, mime: &str) -> (r: &'static str)
    ensures
        r@ == (if spec_download_inline(
            match download_param {
                Some(d) => Some(d@),
                None => None,
            },
            mime@,
        ) {
            "inline"@
        } else {
            "attachment"@
        }),
{
    let asked = match download_param {
        Some(d) => {
            let dc = chars_of(d);
            eq_lit(dc.as_slice(), "1")
        },
        None => false,
    };
    let m = chars_of(mime);
    if !asked && starts_with_lit(m.as_slice(), "image/") && !eq_lit(m.as_slice(), "image/svg+xml") {
        "inline"
    } else {
        "attachment"
    }
}

/// The file name a download is offered under: the stored name, or
/// `download.bin`, with characters that could break the header replaced.
pub fn download_filename(original: Option<&str>) -> (r: String)
    ensures
        r@ == spec_sanitize_filename(
            match original {
                Some(o) => o@,
                None => "download.bin"@,
            },
        ),
{
    match original {
        Some(o) => sanitize_filename(o),
        None => sanitize_filename("download.bin"),
    }
}

/// What answering a preview request involves once the file is classified.
pub enum PreviewAction {
    /// Stream the PDF inline, honouring ranges.
    Pdf,
    /// Stream the image inline, honouring ranges.
    Image,
    /// Read the first `take` bytes and serve them as text.
    Text { take: u64, truncated: bool },
}

/// The largest image served as a preview.
pub const IMAGE_PREVIEW_LIMIT: u64 = 52428800;

/// The largest prefix of a file read for a text preview.
pub const TEXT_PREVIEW_LIMIT: u64 = 10485760;

/// The action for a preview of `kind` on a file of `size` bytes: images over
/// 50 MiB and unsupported kinds are refused, text is cut at 10 MiB.
pub open spec fn spec_preview_action(kind: Seq<char>, size: i64) -> Option<PreviewAction> {
    let bytes: nat = if size < 0 { 0 } else { size as nat };
    if kind == "pdf"@ {
        Some(PreviewAction::Pdf)
    } else if kind == "image"@ {
        if size > IMAGE_PREVIEW_LIMIT { None } else { Some(PreviewAction::Image) }
    } else if kind == "text"@ || kind == "code"@ || kind == "markdown"@ || kind == "html"@ {
        let take: u64 = if bytes < TEXT_PREVIEW_LIMIT { bytes as u64 } else { TEXT_PREVIEW_LIMIT };
        Some(PreviewAction::Text { take, truncated: bytes > take })
    } else {
        None
    }
}

/// Decides how a classified file is previewed.
pub fn preview_action(kind: &str, size: i64) -> (r: AppResult<PreviewAction>)
    ensures
        match r {
            Ok(a) => spec_preview_action(kind@, size) == Some(a),
            Err(e) => spec_preview_action(kind@, size) is None && e is PreviewUnavailable,
        },
{
    let k = chars_of(kind);
    let bytes: u64 = if size < 0 { 0 } else { size as u64 };
    if eq_lit(k.as_slice(), "pdf") {
        Ok(PreviewAction::Pdf)
    } else if eq_lit(k.as_slice(), "image") {
        if size > 52428800 {
            Err(AppError::PreviewUnavailable)
        } else {
            Ok(PreviewAction::Image)
        }
    } else if eq_lit(k.as_slice(), "text") || eq_lit(k.as_slice(), "code") || eq_lit(k.as_slice(), "markdown")
        || eq_lit(k.as_slice(), "html") {
        let take = if bytes < 10485760 { bytes } else { 10485760 };
        Ok(PreviewAction::Text { take, truncated: bytes > take })
    } else {
        Err(AppError::PreviewUnavailable)
    }
}

/// How many leading bytes of a file of `size` bytes are sampled to classify it.
pub fn preview_sample_len(size: i64) -> (r: u64)
    ensures
        r == (if size < 0 { 0 } else if size < 8192 { size as u64 } else { 8192 }),
{
    if size < 0 {
        0
    } else if size < 8192 {
        size as u64
    } else {
        8192
    }
}

/// The headers that describe a preview: its kind, whether it was cut short,
/// and its highlighting language when it has one.
pub fn preview_headers(preview: &PreviewClassification, truncated: bool) -> (r: Vec<(&'static str, &'static str)>)
    ensures
        r@.len() == if preview.language@.len() > 0 { 3nat } else { 2nat },
        r@[0].0@ == "x-preview-kind"@ && r@[0].1 == preview.kind,
        r@[1].0@ == "x-preview-truncated"@ && r@[1].1@ == (if truncated { "true"@ } else { "false"@ }),
        preview.language@.len() > 0 ==> r@[2].0@ == "x-preview-language"@ && r@[2].1 == preview.language,
{
    let mut out: Vec<(&'static str, &'static str)> = Vec::new();
    out.push(("x-preview-kind", preview.kind));
    out.push(("x-preview-truncated", if truncated { "true" } else { "false" }));
    if !preview.language.is_empty() {
        out.push(("x-preview-language", preview.language));
    }
    out
}

} // verus!
