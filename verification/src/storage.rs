//! Rules for what users may store: virtual paths, tags, the kind of pasted
//! text, safe file names, the on-disk layout of blobs, and media type sniffing.
use vstd::prelude::*;

use crate::error::{is_validation, AppError, AppResult};
use crate::text::{
    chars_of, contains_char, contains_lit, contains_run, count_where, eq_lit, is_whitespace,
    spec_is_whitespace, starts_with, starts_with_bytes, starts_with_lit, is_alphanumeric, join, join_chars, replace_char, replace_chars,
    same_chars, spec_is_alphanumeric, spec_to_lowercase, split, split_chars, string_from, to_lowercase,
    trim, trim_chars, utf8_len, utf8_len_of,
};

verus! {

// ---------------------------------------------------------------------------
// Virtual paths
// ---------------------------------------------------------------------------

/// The segments of a virtual path that survive normalization, front to back:
/// blank and `.` segments vanish, `..` and over-long segments are refused
/// (the first offending segment decides the message).
pub open spec fn kept_segments(parts: Seq<Seq<char>>) -> Result<Seq<Seq<char>>, Seq<char>>
    decreases parts.len(),
{
    if parts.len() == 0 {
        Ok(Seq::empty())
    } else {
        let t = trim(parts[0]);
        if t.len() == 0 || t == "."@ {
            kept_segments(parts.drop_first())
        } else if t == ".."@ {
            Err("virtual_path cannot contain .."@)
        } else if utf8_len(t) > 255 {
            Err("virtual_path segment is too long"@)
        } else {
            match kept_segments(parts.drop_first()) {
                Ok(rest) => Ok(seq![t] + rest),
                Err(m) => Err(m),
            }
        }
    }
}

/// The normalized form of a virtual path whose UTF-8 encoding takes
/// `byte_len` bytes: backslashes count as slashes, and the kept segments are
/// joined under a single leading `/`.
pub open spec fn normalized_path(value: Seq<char>, byte_len: usize) -> Result<Seq<char>, Seq<char>> {
    if byte_len > 1024 || value.contains('\0') {
        Err("virtual_path is invalid"@)
    } else {
        match kept_segments(split(replace_char(value, '\\', '/'), '/')) {
            Ok(parts) => Ok("/"@ + join(parts, "/"@)),
            Err(m) => Err(m),
        }
    }
}

/// `r` is the executable answer that `s` describes: the same text on
/// success, a validation failure with the same message otherwise.
pub open spec fn answers(r: AppResult<String>, s: Result<Seq<char>, Seq<char>>) -> bool {
    match r {
        Ok(v) => s == Ok::<Seq<char>, Seq<char>>(v@),
        Err(e) => s matches Err(m) && is_validation(e, m),
    }
}

/// `r` with `acc` put in front of its successful value.
pub open spec fn after_prefix(acc: Seq<Seq<char>>, r: Result<Seq<Seq<char>>, Seq<char>>) -> Result<Seq<Seq<char>>, Seq<char>> {
    match r {
        Ok(rest) => Ok(acc + rest),
        Err(m) => Err(m),
    }
}

/// A segment that can stand in a normalized path: not blank, not `.` or
/// `..`, free of both kinds of slash and of surrounding whitespace.
pub open spec fn plain_segment(t: Seq<char>) -> bool {
    &&& t.len() > 0
    &&& t != "."@
    &&& t != ".."@
    &&& !t.contains('/')
    &&& !t.contains('\\')
    &&& trim(t) == t
}

/// Normalizes a user-supplied virtual path to `/a/b/c` form, refusing paths
/// that are too long, contain NUL or try to climb with `..`.
pub fn normalize_virtual_path(value: &str) -> (r: AppResult<String>)
    ensures
        answers(r, normalized_path(value@, value.len())),
        r matches Ok(p) ==> p@.len() > 0 && p@[0] == '/',
        value.len() < 1024 ==> (r matches Ok(p) ==> normalized_path(p@, utf8_len(p@)) == Ok::<
            Seq<char>,
            Seq<char>,
        >(p@)),
{
    let bytes = value.as_bytes();
    assert(bytes@.len() == bytes.len());
    if value.len() > 1024 {
        return Err(AppError::Validation(String::from_str("virtual_path is invalid")));
    }
    let chars = chars_of(value);
    if contains_char(chars.as_slice(), '\0') {
        return Err(AppError::Validation(String::from_str("virtual_path is invalid")));
    }
    let normalized = replace_chars(chars.as_slice(), '\\', '/');
    let pieces = split_chars(normalized.as_slice(), '/');
    let ghost views = split(replace_char(value@, '\\', '/'), '/');
    let mut parts: Vec<Vec<char>> = Vec::new();
    let mut i: usize = 0;
    proof {
        assert(views.skip(0) =~= views);
        assert(parts@.map_values(|p: Vec<char>| p@) =~= Seq::<Seq<char>>::empty());
        match kept_segments(views) {
            Ok(rest) => {
                assert(Seq::<Seq<char>>::empty() + rest =~= rest);
            },
            Err(_) => {},
        }
    }
    while i < pieces.len()
        invariant
            i <= pieces@.len(),
            !value@.contains('\0'),
            value.len() <= 1024,
            views == split(replace_char(value@, '\\', '/'), '/'),
            pieces@.len() == views.len(),
            forall|k: int| 0 <= k < pieces@.len() ==> #[trigger] pieces@[k]@ == views[k],
            kept_segments(views) == after_prefix(
                parts@.map_values(|p: Vec<char>| p@),
                kept_segments(views.skip(i as int)),
            ),
        decreases pieces@.len() - i,
    {
        assert(views.skip(i as int).drop_first() =~= views.skip(i + 1));
        assert(views.skip(i as int)[0] == views[i as int]);
        let t = trim_chars(pieces[i].as_slice());
        assert(t@ == trim(views[i as int]));
        if t.len() == 0 || eq_lit(t.as_slice(), ".") {
        } else if eq_lit(t.as_slice(), "..") {
            assert(kept_segments(views.skip(i as int)) == Err::<Seq<Seq<char>>, Seq<char>>(
                "virtual_path cannot contain .."@,
            ));
            assert(kept_segments(views) == Err::<Seq<Seq<char>>, Seq<char>>(
                "virtual_path cannot contain .."@,
            ));
            assert(!value@.contains('\0'));
            assert(normalized_path(value@, value.len()) == Err::<Seq<char>, Seq<char>>(
                "virtual_path cannot contain .."@,
            ));
            return Err(AppError::Validation(String::from_str("virtual_path cannot contain ..")));
        } else if utf8_len_of(t.as_slice()) > 255 {
            return Err(AppError::Validation(String::from_str("virtual_path segment is too long")));
        } else {
            let ghost before = parts@.map_values(|p: Vec<char>| p@);
            parts.push(t);
            proof {
                assert(parts@.map_values(|p: Vec<char>| p@) =~= before.push(trim(views[i as int])));
                match kept_segments(views.skip(i + 1)) {
                    Ok(rest) => {
                        assert(before + (seq![trim(views[i as int])] + rest) =~= before.push(
                            trim(views[i as int]),
                        ) + rest);
                    },
                    Err(_) => {},
                }
            }
        }
        i = i + 1;
    }
    assert(views.skip(i as int) =~= Seq::<Seq<char>>::empty());
    assert(parts@.map_values(|p: Vec<char>| p@) + Seq::<Seq<char>>::empty() =~= parts@.map_values(
        |p: Vec<char>| p@,
    ));
    let joined = join_chars(&parts, '/');
    let mut out = String::from_str("/");
    let tail = string_from(joined.as_slice());
    out.append(tail.as_str());
    proof {
        reveal_strlit("/");
        assert("/"@ =~= seq!['/']);
        assert(kept_segments(views) == Ok::<Seq<Seq<char>>, Seq<char>>(parts@.map_values(|p: Vec<char>| p@)));
        assert(out@ == "/"@ + join(parts@.map_values(|p: Vec<char>| p@), "/"@));
        if value.len() < 1024 {
            crate::laws::law_short_paths_normalize_once(value@);
        }
    }
    Ok(out)
}

// ---------------------------------------------------------------------------
// Tags
// ---------------------------------------------------------------------------

/// Characters that a tag may hold besides letters and digits.
pub open spec fn tag_char_ok(c: char) -> bool {
    spec_is_alphanumeric(c) || c == '-' || c == '_' || c == '.'
}

/// The tags that survive cleaning, after those already collected in `acc`:
/// each is trimmed and lowercased, blank ones vanish, repeats are kept once,
/// and a tag that is too long or holds another character is refused.
pub open spec fn cleaned_tags(tags: Seq<Seq<char>>, acc: Seq<Seq<char>>) -> Result<Seq<Seq<char>>, Seq<char>>
    decreases tags.len(),
{
    if tags.len() == 0 {
        Ok(acc)
    } else {
        let t = spec_to_lowercase(trim(tags[0]));
        if t.len() == 0 {
            cleaned_tags(tags.drop_first(), acc)
        } else if utf8_len(t) > 40 || !(forall|i: int| 0 <= i < t.len() ==> tag_char_ok(#[trigger] t[i])) {
            Err("invalid tag: "@ + t)
        } else if acc.contains(t) {
            cleaned_tags(tags.drop_first(), acc)
        } else {
            cleaned_tags(tags.drop_first(), acc.push(t))
        }
    }
}

/// The cleaned tag list, or the reason it is refused.
pub open spec fn validated_tags(tags: Seq<Seq<char>>) -> Result<Seq<Seq<char>>, Seq<char>> {
    if tags.len() > 20 {
        Err("at most 20 tags are allowed"@)
    } else {
        cleaned_tags(tags, Seq::empty())
    }
}

/// A tag as it may be stored: not blank, at most 40 bytes, made of letters,
/// digits, `-`, `_` and `.`.
pub open spec fn stored_tag(t: Seq<char>) -> bool {
    t.len() > 0 && utf8_len(t) <= 40 && forall|i: int| 0 <= i < t.len() ==> tag_char_ok(#[trigger] t[i])
}

/// The views of a list of strings.
pub open spec fn views_of(v: Seq<String>) -> Seq<Seq<char>> {
    v.map_values(|s: String| s@)
}

/// What cleaning gives is a list of distinct stored tags no longer than its
/// input and what was already collected.
pub(crate) proof fn lemma_cleaned_tags_shape(tags: Seq<Seq<char>>, acc: Seq<Seq<char>>)
    requires
        acc.no_duplicates(),
        forall|k: int| 0 <= k < acc.len() ==> stored_tag(#[trigger] acc[k]),
        acc.len() <= 20,
        acc.len() + tags.len() <= 20,
    ensures
        cleaned_tags(tags, acc) matches Ok(out) ==> {
            &&& out.no_duplicates()
            &&& forall|k: int| 0 <= k < out.len() ==> stored_tag(#[trigger] out[k])
            &&& out.len() <= acc.len() + tags.len()
        },
    decreases tags.len(),
{
    if tags.len() > 0 {
        let t = spec_to_lowercase(trim(tags[0]));
        if t.len() == 0 || acc.contains(t) {
            lemma_cleaned_tags_shape(tags.drop_first(), acc);
        } else if utf8_len(t) > 40 || !(forall|i: int| 0 <= i < t.len() ==> tag_char_ok(#[trigger] t[i])) {
        } else {
            let acc2 = acc.push(t);
            assert forall|a: int, b: int| 0 <= a < acc2.len() && 0 <= b < acc2.len() && a != b implies acc2[a] != acc2[b] by {
                if a == acc.len() as int {
                    assert(acc2[b] == acc[b]);
                } else if b == acc.len() as int {
                    assert(acc2[a] == acc[a]);
                }
            }
            assert forall|k: int| 0 <= k < acc2.len() implies stored_tag(#[trigger] acc2[k]) by {
                if k < acc.len() {
                    assert(acc2[k] == acc[k]);
                }
            }
            lemma_cleaned_tags_shape(tags.drop_first(), acc2);
        }
    }
}

/// Cleans a list of user tags: at most 20 may be given; each is trimmed and
/// lowercased, blanks are dropped, duplicates kept once, and invalid tags
/// refused with a message that names them.
pub fn validate_tags(tags: Vec<String>) -> (r: AppResult<Vec<String>>)
    ensures
        match r {
            Ok(v) => validated_tags(views_of(tags@)) == Ok::<Seq<Seq<char>>, Seq<char>>(views_of(v@)),
            Err(e) => validated_tags(views_of(tags@)) matches Err(m) && is_validation(e, m),
        },
        r matches Ok(v) ==> {
            &&& views_of(v@).no_duplicates()
            &&& forall|k: int| 0 <= k < v@.len() ==> stored_tag(#[trigger] v@[k]@)
            &&& v@.len() <= tags@.len()
        },
{
    if tags.len() > 20 {
        return Err(AppError::Validation(String::from_str("at most 20 tags are allowed")));
    }
    let ghost all = views_of(tags@);
    proof {
        lemma_cleaned_tags_shape(all, Seq::empty());
    }
    let mut clean: Vec<String> = Vec::new();
    let mut i: usize = 0;
    assert(all.skip(0) =~= all);
    assert(views_of(clean@) =~= Seq::<Seq<char>>::empty());
    while i < tags.len()
        invariant
            i <= tags@.len(),
            tags@.len() <= 20,
            all == views_of(tags@),
            cleaned_tags(all, Seq::empty()) == cleaned_tags(all.skip(i as int), views_of(clean@)),
            views_of(clean@).no_duplicates(),
            forall|k: int| 0 <= k < clean@.len() ==> stored_tag(#[trigger] clean@[k]@),
            clean@.len() <= i,
        decreases tags@.len() - i,
    {
        assert(all.skip(i as int).drop_first() =~= all.skip(i + 1));
        assert(all.skip(i as int)[0] == tags@[i as int]@);
        let raw = chars_of(tags[i].as_str());
        let trimmed = string_from(trim_chars(raw.as_slice()).as_slice());
        let tag = to_lowercase(trimmed.as_str());
        let tag_chars = chars_of(tag.as_str());
        let ghost cur = views_of(clean@);
        assert(tag_chars@ == spec_to_lowercase(trim(all.skip(i as int)[0])));
        if tag_chars.len() == 0 {
            assert(cleaned_tags(all.skip(i as int), cur) == cleaned_tags(all.skip(i + 1), cur));
        } else {
            let mut ok = tag.as_str().len() <= 40;
            let mut k: usize = 0;
            while k < tag_chars.len()
                invariant
                    k <= tag_chars@.len(),
                    ok ==> forall|j: int| 0 <= j < k ==> tag_char_ok(#[trigger] tag_chars@[j]),
                    ok ==> utf8_len(tag_chars@) <= 40,
                    !ok ==> (utf8_len(tag_chars@) > 40 || !(forall|j: int|
                        0 <= j < tag_chars@.len() ==> tag_char_ok(#[trigger] tag_chars@[j]))),
                decreases tag_chars@.len() - k,
            {
                let c = tag_chars[k];
                if !(is_alphanumeric(c) || c == '-' || c == '_' || c == '.') {
                    assert(!tag_char_ok(tag_chars@[k as int]));
                    ok = false;
                }
                k = k + 1;
            }
            if !ok {
                let mut msg = String::from_str("invalid tag: ");
                msg.append(tag.as_str());
                return Err(AppError::Validation(msg));
            }
            let mut seen = false;
            let mut j: usize = 0;
            while j < clean.len()
                invariant
                    j <= clean@.len(),
                    seen == exists|q: int| 0 <= q < j && #[trigger] clean@[q]@ == tag_chars@,
                decreases clean@.len() - j,
            {
                let other = chars_of(clean[j].as_str());
                if same_chars(other.as_slice(), tag_chars.as_slice()) {
                    seen = true;
                }
                j = j + 1;
            }
            proof {
                if seen {
                    let q = choose|q: int| 0 <= q < clean@.len() && #[trigger] clean@[q]@ == tag_chars@;
                    assert(views_of(clean@)[q] == tag_chars@);
                } else {
                    assert forall|q: int| 0 <= q < views_of(clean@).len() implies views_of(clean@)[q] != tag_chars@ by {
                        assert(views_of(clean@)[q] == clean@[q]@);
                    }
                }
            }
            if seen {
                assert(cleaned_tags(all.skip(i as int), cur) == cleaned_tags(all.skip(i + 1), cur));
            }
            if !seen {
                let ghost before = clean@;
                clean.push(tag);
                proof {
                    assert(views_of(clean@) =~= views_of(before).push(tag_chars@));
                    assert forall|a: int, b: int|
                        0 <= a < views_of(clean@).len() && 0 <= b < views_of(clean@).len() && a != b
                        implies views_of(clean@)[a] != views_of(clean@)[b] by {
                        if a == before.len() as int {
                            assert(views_of(clean@)[b] == views_of(before)[b]);
                        } else if b == before.len() as int {
                            assert(views_of(clean@)[a] == views_of(before)[a]);
                        } else {
                            assert(views_of(clean@)[a] == views_of(before)[a]);
                            assert(views_of(clean@)[b] == views_of(before)[b]);
                        }
                    }
                    assert forall|k: int| 0 <= k < clean@.len() implies stored_tag(#[trigger] clean@[k]@) by {
                        if k < before.len() {
                            assert(clean@[k] == before[k]);
                        } else {
                            assert(clean@[k]@ == tag_chars@);
                        }
                    }
                    assert(!cur.contains(tag_chars@));
                    assert(cleaned_tags(all.skip(i as int), cur) == cleaned_tags(all.skip(i + 1), cur.push(tag_chars@)));
                }
            }
        }
        i = i + 1;
    }
    assert(all.skip(i as int) =~= Seq::<Seq<char>>::empty());
    Ok(clean)
}

} // verus!

verus! {

// ---------------------------------------------------------------------------
// Pasted text classification
// ---------------------------------------------------------------------------

/// The kinds a client may ask for instead of `auto`.
pub open spec fn is_explicit_kind(k: Seq<char>) -> bool {
    k == "text"@ || k == "html"@ || k == "code"@ || k == "url"@
}

/// Keywords whose presence suggests source code.
pub open spec fn has_code_marker(p: Seq<char>) -> bool {
    ||| contains_run(p, "function "@)
    ||| contains_run(p, "const "@)
    ||| contains_run(p, "let "@)
    ||| contains_run(p, "import "@)
    ||| contains_run(p, "class "@)
    ||| contains_run(p, "def "@)
    ||| contains_run(p, "#include"@)
    ||| contains_run(p, "fn "@)
}

/// How many of `{`, `}`, `;` and `=` occur in `p`.
pub open spec fn punctuation_kinds(p: Seq<char>) -> nat {
    (if p.contains('{') { 1nat } else { 0nat }) + (if p.contains('}') { 1nat } else { 0nat }) + (
    if p.contains(';') { 1nat } else { 0nat }) + (if p.contains('=') { 1nat } else { 0nat })
}

/// A line that starts with two spaces or a tab.
pub open spec fn is_indented(l: Seq<char>) -> bool {
    starts_with(l, "  "@) || starts_with(l, seq!['\t'])
}

/// The number of indented lines of `p`. Splitting at `\n` gives the same
/// count as `str::lines`: a trailing `\r` never decides whether a line starts
/// with two spaces or a tab, and a final empty piece is never indented.
pub open spec fn indented_lines(p: Seq<char>) -> nat {
    count_where(split(p, '\n'), |l: Seq<char>| is_indented(l))
}

/// Whether a pasted text with no explicit kind looks like a URL: `http://`
/// or `https://` and no whitespace after trimming.
pub open spec fn looks_like_url(p: Seq<char>) -> bool {
    let t = trim(p);
    (starts_with(t, "https://"@) || starts_with(t, "http://"@)) && !(exists|i: int|
        0 <= i < t.len() && spec_is_whitespace(#[trigger] t[i]))
}

/// Whether a pasted text with no explicit kind looks like an HTML document.
pub open spec fn looks_like_html(p: Seq<char>) -> bool {
    let t = trim(p);
    starts_with(t, "<!DOCTYPE html"@) || starts_with(t, "<html"@)
}

/// Whether at least two of the three signs of code are present: a code
/// keyword, several lines with two or more kinds of code punctuation, and two
/// or more indented lines.
pub open spec fn looks_like_code(p: Seq<char>) -> bool {
    let marker = has_code_marker(p);
    let punctuation = p.contains('\n') && punctuation_kinds(p) >= 2;
    let indented = indented_lines(p) >= 2;
    (if marker { 1int } else { 0 }) + (if punctuation { 1int } else { 0 }) + (if indented { 1int } else { 0 }) >= 2
}

/// The kind stored for a pasted text, or the reason the requested kind is refused.
pub open spec fn detected_kind(payload: Seq<char>, requested: Seq<char>) -> Result<Seq<char>, Seq<char>> {
    if requested != "auto"@ {
        if is_explicit_kind(requested) {
            Ok(requested)
        } else {
            Err("type must be auto, text, html, code, or url"@)
        }
    } else if looks_like_url(payload) {
        Ok("url"@)
    } else if looks_like_html(payload) {
        Ok("html"@)
    } else if looks_like_code(payload) {
        Ok("code"@)
    } else {
        Ok("text"@)
    }
}

/// Counts the indented lines of `p`.
fn count_indented(p: &[char]) -> (n: usize)
    ensures
        n == indented_lines(p@),
{
    let lines = split_chars(p, '\n');
    let ghost all = split(p@, '\n');
    let mut n: usize = 0;
    let mut i: usize = 0;
    while i < lines.len()
        invariant
            i <= lines@.len(),
            lines@.len() == all.len(),
            all == split(p@, '\n'),
            forall|k: int| 0 <= k < lines@.len() ==> #[trigger] lines@[k]@ == all[k],
            n == count_where(all.take(i as int), |l: Seq<char>| is_indented(l)),
            n <= i,
        decreases lines@.len() - i,
    {
        assert(all.take(i + 1).drop_last() =~= all.take(i as int));
        let line = lines[i].as_slice();
        proof {
            reveal_strlit("  ");
        }
        if starts_with_lit(line, "  ") || (line.len() > 0 && line[0] == '\t') {
            assert(starts_with(line@, seq!['\t']) || starts_with(line@, "  "@)) by {
                if !starts_with(line@, "  "@) {
                    assert(line@.take(1) =~= seq!['\t']);
                }
            }
            n = n + 1;
        } else {
            assert(!starts_with(line@, seq!['\t'])) by {
                if line@.len() > 0 {
                    assert(line@.take(1)[0] == line@[0]);
                }
            }
        }
        i = i + 1;
    }
    assert(all.take(i as int) =~= all);
    n
}

/// Classifies pasted text: an explicit kind is checked, `auto` is resolved to
/// `url`, `html`, `code` or `text` by looking at the text.
pub fn detect_text_kind(payload: &str, requested: &str) -> (r: AppResult<String>)
    ensures
        answers(r, detected_kind(payload@, requested@)),
{
    let req = chars_of(requested);
    if !eq_lit(req.as_slice(), "auto") {
        if eq_lit(req.as_slice(), "text") || eq_lit(req.as_slice(), "html") || eq_lit(req.as_slice(), "code")
            || eq_lit(req.as_slice(), "url") {
            return Ok(string_from(req.as_slice()));
        }
        return Err(AppError::Validation(String::from_str("type must be auto, text, html, code, or url")));
    }
    let p = chars_of(payload);
    let t = trim_chars(p.as_slice());
    if starts_with_lit(t.as_slice(), "https://") || starts_with_lit(t.as_slice(), "http://") {
        let mut k: usize = 0;
        let mut space = false;
        while k < t.len()
            invariant
                k <= t@.len(),
                space == exists|i: int| 0 <= i < k && spec_is_whitespace(#[trigger] t@[i]),
            decreases t@.len() - k,
        {
            if is_whitespace(t[k]) {
                space = true;
            }
            k = k + 1;
        }
        if !space {
            return Ok(String::from_str("url"));
        }
    }
    if starts_with_lit(t.as_slice(), "<!DOCTYPE html") || starts_with_lit(t.as_slice(), "<html") {
        return Ok(String::from_str("html"));
    }
    let ps = p.as_slice();
    let marker = contains_lit(ps, "function ") || contains_lit(ps, "const ") || contains_lit(ps, "let ")
        || contains_lit(ps, "import ") || contains_lit(ps, "class ") || contains_lit(ps, "def ")
        || contains_lit(ps, "#include") || contains_lit(ps, "fn ");
    let mut kinds: usize = 0;
    if contains_char(ps, '{') {
        kinds = kinds + 1;
    }
    if contains_char(ps, '}') {
        kinds = kinds + 1;
    }
    if contains_char(ps, ';') {
        kinds = kinds + 1;
    }
    if contains_char(ps, '=') {
        kinds = kinds + 1;
    }
    let punctuation = contains_char(ps, '\n') && kinds >= 2;
    let indented = count_indented(ps) >= 2;
    let mut signs: usize = 0;
    if marker {
        signs = signs + 1;
    }
    if punctuation {
        signs = signs + 1;
    }
    if indented {
        signs = signs + 1;
    }
    if signs >= 2 {
        Ok(String::from_str("code"))
    } else {
        Ok(String::from_str("text"))
    }
}

/// The item kind recorded for an uploaded file of media type `mime`.
pub open spec fn spec_file_kind(mime: Seq<char>) -> Seq<char> {
    if starts_with(mime, "image/"@) && mime != "image/svg+xml"@ {
        "image"@
    } else if starts_with(mime, "text/html"@) {
        "html"@
    } else {
        "file"@
    }
}

/// Raster images are `image`, HTML documents `html`, everything else `file`
/// (SVG counts as a file because it can carry script).
pub fn file_kind(mime: &str) -> (r: &'static str)
    ensures
        r@ == spec_file_kind(mime@),
{
    let m = chars_of(mime);
    if starts_with_lit(m.as_slice(), "image/") && !eq_lit(m.as_slice(), "image/svg+xml") {
        "image"
    } else if starts_with_lit(m.as_slice(), "text/html") {
        "html"
    } else {
        "file"
    }
}

} // verus!

verus! {

// ---------------------------------------------------------------------------
// File names and storage keys
// ---------------------------------------------------------------------------

/// The part of `s` after its last `/` or `\`.
pub open spec fn last_piece(s: Seq<char>) -> Seq<char>
    decreases s.len(),
{
    if s.len() == 0 {
        s
    } else if s.last() == '/' || s.last() == '\\' {
        Seq::empty()
    } else {
        last_piece(s.drop_last()).push(s.last())
    }
}

/// `s` without its control characters.
pub open spec fn drop_controls(s: Seq<char>) -> Seq<char>
    decreases s.len(),
{
    if s.len() == 0 {
        s
    } else if crate::text::is_control_char(s.last()) {
        drop_controls(s.drop_last())
    } else {
        drop_controls(s.drop_last()).push(s.last())
    }
}

/// The first `n` elements of `s`, or all of them when there are fewer.
pub open spec fn take_at_most<T>(s: Seq<T>, n: nat) -> Seq<T> {
    if s.len() <= n { s } else { s.take(n as int) }
}

/// The display name kept for an uploaded file: the last path piece, without
/// control characters, at most 255 characters, trimmed.
pub open spec fn spec_safe_filename(v: Seq<char>) -> Seq<char> {
    trim(take_at_most(drop_controls(last_piece(v)), 255))
}

/// Reduces a client-supplied file name to a harmless display name.
pub fn safe_filename(value: &str) -> (r: String)
    ensures
        r@ == spec_safe_filename(value@),
{
    let v = chars_of(value);
    let mut start: usize = 0;
    let mut i: usize = 0;
    while i < v.len()
        invariant
            start <= i <= v@.len(),
            last_piece(v@.take(i as int)) == v@.subrange(start as int, i as int),
        decreases v@.len() - i,
    {
        assert(v@.take(i + 1).drop_last() =~= v@.take(i as int));
        if v[i] == '/' || v[i] == '\\' {
            start = i + 1;
            assert(v@.subrange(start as int, i + 1) =~= Seq::<char>::empty());
        } else {
            assert(v@.subrange(start as int, i + 1) =~= v@.subrange(start as int, i as int).push(v@[i as int]));
        }
        i = i + 1;
    }
    assert(v@.take(i as int) =~= v@);
    let ghost piece = last_piece(v@);
    let mut kept: Vec<char> = Vec::new();
    let mut k: usize = start;
    while k < v.len()
        invariant
            start <= k <= v@.len(),
            piece == v@.subrange(start as int, v@.len() as int),
            kept@ == take_at_most(drop_controls(piece.take(k - start)), 255),
        decreases v@.len() - k,
    {
        let ghost before = drop_controls(piece.take(k - start));
        assert(piece.take(k - start + 1).drop_last() =~= piece.take(k - start));
        assert(piece.take(k - start + 1).last() == v@[k as int]);
        let c = v[k];
        if !crate::text::is_control(c) {
            if kept.len() < 255 {
                kept.push(c);
                assert(kept@ =~= take_at_most(before.push(c), 255));
            } else {
                assert(before.push(c).take(255) =~= before.take(255));
            }
        }
        k = k + 1;
    }
    assert(piece.take(k - start) =~= piece);
    let t = trim_chars(kept.as_slice());
    string_from(t.as_slice())
}

/// A character that may stand in a storage path component as it is.
pub open spec fn component_char_ok(c: char) -> bool {
    crate::text::is_ascii_alnum(c) || c == '-' || c == '_'
}

/// `v` with every character other than ASCII letters, digits, `-` and `_`
/// replaced by `_`.
pub open spec fn spec_safe_component(v: Seq<char>) -> Seq<char> {
    v.map_values(|c: char| if component_char_ok(c) { c } else { '_' })
}

/// Makes an identifier safe to use as one directory name.
pub fn safe_component(value: &str) -> (r: String)
    ensures
        r@ == spec_safe_component(value@),
{
    let v = chars_of(value);
    let mut out: Vec<char> = Vec::new();
    let mut i: usize = 0;
    while i < v.len()
        invariant
            i <= v@.len(),
            out@ == spec_safe_component(v@.take(i as int)),
        decreases v@.len() - i,
    {
        let c = v[i];
        out.push(if crate::text::ascii_alnum(c) || c == '-' || c == '_' { c } else { '_' });
        i = i + 1;
        assert(out@ =~= spec_safe_component(v@.take(i as int)));
    }
    assert(v@.take(i as int) =~= v@);
    string_from(out.as_slice())
}

/// Whether `key`, read as a relative file system path, consists of plain
/// names only: it does not start at the root, does not start with `.`
/// (which `Path::components` keeps only at the beginning) and never climbs
/// with `..`. Empty and `.` pieces elsewhere are ignored, as `Path` does.
pub open spec fn is_safe_storage_key(key: Seq<char>) -> bool {
    let pieces = split(key, '/');
    &&& !starts_with(key, "/"@)
    &&& pieces[0] != "."@
    &&& forall|i: int| 0 <= i < pieces.len() ==> #[trigger] pieces[i] != ".."@
}

/// Whether a stored key is safe to join under the upload root.
pub fn storage_key_is_safe(key: &str) -> (r: bool)
    ensures
        r == is_safe_storage_key(key@),
{
    let k = chars_of(key);
    if starts_with_lit(k.as_slice(), "/") {
        return false;
    }
    let pieces = split_chars(k.as_slice(), '/');
    let ghost all = split(key@, '/');
    assert(pieces@.len() > 0) by {
        crate::text::lemma_split_nonempty(key@, '/');
    }
    if eq_lit(pieces[0].as_slice(), ".") {
        return false;
    }
    let mut i: usize = 0;
    while i < pieces.len()
        invariant
            i <= pieces@.len(),
            all == split(key@, '/'),
            pieces@.len() == all.len(),
            forall|q: int| 0 <= q < pieces@.len() ==> #[trigger] pieces@[q]@ == all[q],
            forall|q: int| 0 <= q < i ==> #[trigger] all[q] != ".."@,
        decreases pieces@.len() - i,
    {
        if eq_lit(pieces[i].as_slice(), "..") {
            assert(all[i as int] == ".."@);
            return false;
        }
        i = i + 1;
    }
    true
}

/// Refuses a stored key that could leave the upload root.
pub fn checked_storage_key(key: &str) -> (r: AppResult<()>)
    ensures
        r is Ok <==> is_safe_storage_key(key@),
        r matches Err(e) ==> is_validation(e, "unsafe storage key"@),
{
    if storage_key_is_safe(key) {
        Ok(())
    } else {
        Err(AppError::Validation(String::from_str("unsafe storage key")))
    }
}

/// Where a new blob lives below the upload root:
/// `<workspace>/<first two hex digits>/<next two>/<blob id>`.
pub open spec fn spec_blob_storage_key(organization_id: Seq<char>, sha256: Seq<char>, blob_id: Seq<char>) -> Seq<char> {
    spec_safe_component(organization_id) + "/"@ + sha256.subrange(0, 2) + "/"@ + sha256.subrange(2, 4) + "/"@
        + blob_id
}

/// The storage key of a new blob, spread over directories by the first
/// four characters of its hexadecimal SHA-256 digest.
pub fn blob_storage_key(organization_id: &str, sha256: &str, blob_id: &str) -> (r: String)
    requires
        sha256@.len() >= 4,
        vstd::string::is_ascii(sha256),
    ensures
        r@ == spec_blob_storage_key(organization_id@, sha256@, blob_id@),
{
    let mut out = safe_component(organization_id);
    out.append("/");
    out.append(sha256.substring_ascii(0, 2));
    out.append("/");
    out.append(sha256.substring_ascii(2, 4));
    out.append("/");
    out.append(blob_id);
    out
}

} // verus!

verus! {

// ---------------------------------------------------------------------------
// Media types
// ---------------------------------------------------------------------------

/// The media type that `mime_guess` associates with the extension of
/// `filename`, if it knows one.
pub uninterp spec fn spec_guessed_mime(filename: Seq<char>) -> Option<Seq<char>>;

/// `mime_guess::from_path(filename).first_raw()`: the first media type
/// registered for the file name's extension. Its table is not restated here;
/// the result is named by `spec_guessed_mime`.
#[verifier::external_body]
fn guess_mime(filename: &str) -> (r: Option<String>)
    ensures
        match r {
            Some(m) => spec_guessed_mime(filename@) == Some(m@),
            None => spec_guessed_mime(filename@) is None,
        },
{
    match mime_guess::from_path(filename).first_raw() {
        Some(m) => Some(m.to_string()),
        None => None,
    }
}

/// The media type that the first bytes of a file prove, for the formats
/// recognised by their signature.
pub open spec fn magic_mime(sig: Seq<u8>) -> Option<Seq<char>> {
    if starts_with(sig, seq![0x89u8, 0x50, 0x4e, 0x47, 0x0d, 0x0a, 0x1a, 0x0a]) {
        Some("image/png"@)
    } else if starts_with(sig, seq![0xffu8, 0xd8, 0xff]) {
        Some("image/jpeg"@)
    } else if starts_with(sig, seq![0x47u8, 0x49, 0x46, 0x38, 0x37, 0x61]) || starts_with(
        sig,
        seq![0x47u8, 0x49, 0x46, 0x38, 0x39, 0x61],
    ) {
        Some("image/gif"@)
    } else if starts_with(sig, seq![0x25u8, 0x50, 0x44, 0x46, 0x2d]) {
        Some("application/pdf"@)
    } else if starts_with(sig, seq![0x50u8, 0x4b, 0x03, 0x04]) {
        Some("application/zip"@)
    } else {
        None
    }
}

/// A file received into the temporary area: where it lies, the name it
/// came with, its media type, its size and its SHA-256 in hexadecimal.
pub struct TempUpload {
    pub path: String,
    pub original_filename: String,
    pub mime_type: String,
    pub size_bytes: u64,
    pub sha256: String,
}

/// The media type recorded for an upload: the signature decides first, then
/// the file name's extension, then what the client declared, and
/// `application/octet-stream` when nothing is known.
pub open spec fn spec_sniffed_mime(sig: Seq<u8>, filename: Seq<char>, declared: Option<Seq<char>>) -> Seq<char> {
    match magic_mime(sig) {
        Some(m) => m,
        None => match spec_guessed_mime(filename) {
            Some(m) => m,
            None => match declared {
                Some(d) => d,
                None => "application/octet-stream"@,
            },
        },
    }
}

/// Determines the media type of an upload from its first bytes, its name
/// and the declared type, in that order of trust.
pub fn sniff_mime(signature: &[u8], filename: &str, declared: Option<&str>) -> (r: String)
    ensures
        r@ == spec_sniffed_mime(
            signature@,
            filename@,
            match declared {
                Some(d) => Some(d@),
                None => None,
            },
        ),
{
    let png: [u8; 8] = [0x89, 0x50, 0x4e, 0x47, 0x0d, 0x0a, 0x1a, 0x0a];
    let jpeg: [u8; 3] = [0xff, 0xd8, 0xff];
    let gif87: [u8; 6] = [0x47, 0x49, 0x46, 0x38, 0x37, 0x61];
    let gif89: [u8; 6] = [0x47, 0x49, 0x46, 0x38, 0x39, 0x61];
    let pdf: [u8; 5] = [0x25, 0x50, 0x44, 0x46, 0x2d];
    let zip: [u8; 4] = [0x50, 0x4b, 0x03, 0x04];
    assert(png@ =~= seq![0x89u8, 0x50, 0x4e, 0x47, 0x0d, 0x0a, 0x1a, 0x0a]);
    assert(jpeg@ =~= seq![0xffu8, 0xd8, 0xff]);
    assert(gif87@ =~= seq![0x47u8, 0x49, 0x46, 0x38, 0x37, 0x61]);
    assert(gif89@ =~= seq![0x47u8, 0x49, 0x46, 0x38, 0x39, 0x61]);
    assert(pdf@ =~= seq![0x25u8, 0x50, 0x44, 0x46, 0x2d]);
    assert(zip@ =~= seq![0x50u8, 0x4b, 0x03, 0x04]);
    if starts_with_bytes(signature, &png) {
        String::from_str("image/png")
    } else if starts_with_bytes(signature, &jpeg) {
        String::from_str("image/jpeg")
    } else if starts_with_bytes(signature, &gif87) || starts_with_bytes(signature, &gif89) {
        String::from_str("image/gif")
    } else if starts_with_bytes(signature, &pdf) {
        String::from_str("application/pdf")
    } else if starts_with_bytes(signature, &zip) {
        String::from_str("application/zip")
    } else {
        match guess_mime(filename) {
            Some(m) => m,
            None => match declared {
                Some(d) => String::from_str(d),
                None => String::from_str("application/octet-stream"),
            },
        }
    }
}

} // verus!
