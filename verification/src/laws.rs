//! Properties that hold across the library's operations, each proved from
//! the definitions that the operations' contracts use.
use vstd::prelude::*;
use vstd::utf8::encode_utf8;

use crate::digest::is_hex_digit;
use crate::input::spec_source_url;
use crate::input::spec_url_scheme;
use crate::items::{csv_header, csv_row, spec_csv_export, ItemRow};
use crate::preview::spec_classify;
use crate::storage::{detected_kind, spec_safe_filename};
use crate::text::starts_with;
use crate::uploads::{metadata_value, spec_metadata, spec_upload_request_ok, UploadRequest};
use crate::auth::cookie_value;
use crate::config::{config_error, numeric_setting, ConfigInput};
use crate::input::opt_view;
use crate::pages::{
    form_byte, form_encoded, form_encoded_text, spec_max_upload_mb, spec_settings_limit, spec_workspace_cookie_header,
    MIB,
};
use crate::uploads::{spec_chunk_step, spec_tus_workspace_limit, ChunkRefusal, ChunkStep};
use crate::workspace::spec_api_workspace_limit;
use crate::storage::{
    cleaned_tags, lemma_cleaned_tags_shape, stored_tag, validated_tags,
    component_char_ok, is_safe_storage_key, kept_segments, normalized_path, plain_segment, spec_blob_storage_key,
    spec_safe_component,
};
use crate::text::{
    join, lemma_split_concat, utf8_len, lemma_split_first, lemma_split_once_at, lemma_split_piece_chars, lemma_split_without_sep,
    lemma_trim_idempotent, lemma_trim_shape, lemma_trim_unchanged, replace_char, spec_is_whitespace, spec_to_lowercase, split,
    trim,
};

verus! {

/// Every kept segment of pieces free of both kinds of slash is plain.
proof fn lemma_kept_segments_plain(pieces: Seq<Seq<char>>)
    requires
        forall|i: int, j: int|
            0 <= i < pieces.len() && 0 <= j < pieces[i].len() ==> #[trigger] pieces[i][j] != '/' && pieces[i][j]
                != '\\',
    ensures
        kept_segments(pieces) matches Ok(parts) ==> forall|k: int|
            0 <= k < parts.len() ==> #[trigger] plain_segment(parts[k]) && utf8_len(parts[k]) <= 255,
    decreases pieces.len(),
{
    if pieces.len() > 0 {
        let rest = pieces.drop_first();
        assert forall|i: int, j: int| 0 <= i < rest.len() && 0 <= j < rest[i].len() implies #[trigger] rest[i][j]
            != '/' && rest[i][j] != '\\' by {
            assert(rest[i] == pieces[i + 1]);
        }
        lemma_kept_segments_plain(rest);
        let t = trim(pieces[0]);
        lemma_trim_shape(pieces[0]);
        lemma_trim_idempotent(pieces[0]);
        if let Ok(parts) = kept_segments(pieces) {
            if !(t.len() == 0 || t == "."@) {
                assert(!t.contains('/') && !t.contains('\\')) by {
                    if t.contains('/') || t.contains('\\') {
                        let j = choose|j: int| 0 <= j < t.len() && (t[j] == '/' || t[j] == '\\');
                        assert(pieces[0].contains(t[j]));
                        let m = choose|m: int| 0 <= m < pieces[0].len() && pieces[0][m] == t[j];
                        assert(pieces[0][m] != '/' && pieces[0][m] != '\\');
                    }
                }
                let tail = kept_segments(rest)->Ok_0;
                assert(parts == seq![t] + tail);
                assert forall|k: int| 0 <= k < parts.len() implies #[trigger] plain_segment(parts[k]) && utf8_len(
                    parts[k],
                ) <= 255 by {
                    if k > 0 {
                        assert(parts[k] == tail[k - 1]);
                    }
                }
            }
        }
    }
}

/// A character absent from every piece is absent from every kept segment.
proof fn lemma_kept_segments_avoid(pieces: Seq<Seq<char>>, c: char)
    requires
        forall|i: int, j: int| 0 <= i < pieces.len() && 0 <= j < pieces[i].len() ==> #[trigger] pieces[i][j] != c,
    ensures
        kept_segments(pieces) matches Ok(parts) ==> forall|k: int, j: int|
            0 <= k < parts.len() && 0 <= j < parts[k].len() ==> #[trigger] parts[k][j] != c,
    decreases pieces.len(),
{
    if pieces.len() > 0 {
        let rest = pieces.drop_first();
        assert forall|i: int, j: int| 0 <= i < rest.len() && 0 <= j < rest[i].len() implies #[trigger] rest[i][j] != c by {
            assert(rest[i] == pieces[i + 1]);
        }
        lemma_kept_segments_avoid(rest, c);
        let t = trim(pieces[0]);
        lemma_trim_shape(pieces[0]);
        if let Ok(parts) = kept_segments(pieces) {
            if !(t.len() == 0 || t == "."@) {
                let tail = kept_segments(rest)->Ok_0;
                assert(parts == seq![t] + tail);
                assert forall|k: int, j: int| 0 <= k < parts.len() && 0 <= j < parts[k].len() implies #[trigger] parts[k][j]
                    != c by {
                    if k > 0 {
                        assert(parts[k] == tail[k - 1]);
                    } else {
                        assert(pieces[0].contains(t[j]));
                        let m = choose|m: int| 0 <= m < pieces[0].len() && pieces[0][m] == t[j];
                        assert(pieces[0][m] != c);
                    }
                }
            }
        }
    }
}

/// Joining with a separator other than `c` keeps `c` out when the parts
/// hold none.
proof fn lemma_join_avoid(parts: Seq<Seq<char>>, sep: char, c: char)
    requires
        sep != c,
        forall|k: int, j: int| 0 <= k < parts.len() && 0 <= j < parts[k].len() ==> #[trigger] parts[k][j] != c,
    ensures
        forall|i: int| 0 <= i < join(parts, seq![sep]).len() ==> #[trigger] join(parts, seq![sep])[i] != c,
    decreases parts.len(),
{
    if parts.len() == 1 {
        assert forall|i: int| 0 <= i < join(parts, seq![sep]).len() implies #[trigger] join(parts, seq![sep])[i] != c by {
            assert(parts[0][i] != c);
        }
    } else if parts.len() > 1 {
        let init = parts.drop_last();
        assert forall|k: int, j: int| 0 <= k < init.len() && 0 <= j < init[k].len() implies #[trigger] init[k][j] != c by {
            assert(init[k] == parts[k]);
        }
        lemma_join_avoid(init, sep, c);
        let head = join(init, seq![sep]);
        assert forall|i: int| 0 <= i < join(parts, seq![sep]).len() implies #[trigger] join(parts, seq![sep])[i] != c by {
            if i < head.len() {
                assert(join(parts, seq![sep])[i] == head[i]);
            } else if i > head.len() {
                assert(join(parts, seq![sep])[i] == parts.last()[i - head.len() - 1]);
                assert(parts[parts.len() - 1][i - head.len() - 1] != c);
            }
        }
    }
}

/// Splitting joined parts without the separator gives the parts back.
proof fn lemma_split_join(parts: Seq<Seq<char>>)
    requires
        parts.len() > 0,
        forall|k: int, j: int| 0 <= k < parts.len() && 0 <= j < parts[k].len() ==> #[trigger] parts[k][j] != '/',
    ensures
        split(join(parts, seq!['/']), '/') == parts,
    decreases parts.len(),
{
    if parts.len() == 1 {
        assert(!parts[0].contains('/')) by {
            if parts[0].contains('/') {
                let j = choose|j: int| 0 <= j < parts[0].len() && parts[0][j] == '/';
                assert(parts[0][j] != '/');
            }
        }
        lemma_split_without_sep(parts[0], '/');
        assert(parts =~= seq![parts[0]]);
    } else {
        let init = parts.drop_last();
        assert forall|k: int, j: int| 0 <= k < init.len() && 0 <= j < init[k].len() implies #[trigger] init[k][j] != '/' by {
            assert(init[k] == parts[k]);
        }
        lemma_split_join(init);
        let last = parts.last();
        assert(!last.contains('/')) by {
            if last.contains('/') {
                let j = choose|j: int| 0 <= j < last.len() && last[j] == '/';
                assert(parts[parts.len() - 1][j] != '/');
            }
        }
        lemma_split_without_sep(last, '/');
        lemma_split_concat(join(init, seq!['/']), '/', last);
        assert(init + seq![last] =~= parts);
    }
}

/// Segments that are plain and short survive normalization unchanged.
proof fn lemma_kept_segments_fixed(parts: Seq<Seq<char>>)
    requires
        forall|k: int| 0 <= k < parts.len() ==> #[trigger] plain_segment(parts[k]) && utf8_len(parts[k]) <= 255,
    ensures
        kept_segments(parts) == Ok::<Seq<Seq<char>>, Seq<char>>(parts),
    decreases parts.len(),
{
    if parts.len() > 0 {
        let rest = parts.drop_first();
        assert forall|k: int| 0 <= k < rest.len() implies #[trigger] plain_segment(rest[k]) && utf8_len(rest[k]) <= 255 by {
            assert(rest[k] == parts[k + 1]);
        }
        lemma_kept_segments_fixed(rest);
        assert(plain_segment(parts[0]) && utf8_len(parts[0]) <= 255);
        assert(seq![parts[0]] + rest =~= parts);
    } else {
        assert(parts =~= Seq::<Seq<char>>::empty());
    }
}

/// Normalizing a normalized path changes nothing, as long as the
/// normalized path still fits the 1024-byte limit (the added leading `/`
/// can take a 1024-byte path just over it).
pub proof fn law_normalizing_twice_changes_nothing(value: Seq<char>, byte_len: usize)
    ensures
        normalized_path(value, byte_len) matches Ok(p) ==> (utf8_len(p) <= 1024 ==> normalized_path(p, utf8_len(p))
            == Ok::<Seq<char>, Seq<char>>(p)),
{
    reveal_strlit("/");
    reveal_strlit(".");
    reveal_strlit("..");
    assert("/"@ =~= seq!['/']);
    let replaced = replace_char(value, '\\', '/');
    let pieces = split(replaced, '/');
    lemma_split_piece_chars(replaced, '/');
    if let Ok(p) = normalized_path(value, byte_len) {
        if utf8_len(p) <= 1024 {
            assert forall|i: int, j: int| 0 <= i < pieces.len() && 0 <= j < pieces[i].len() implies #[trigger] pieces[i][j]
                != '/' && pieces[i][j] != '\\' && pieces[i][j] != '\0' by {
                assert(replaced.contains(pieces[i][j]));
                let m = choose|m: int| 0 <= m < replaced.len() && replaced[m] == pieces[i][j];
                assert(replaced[m] != '\\');
                if replaced[m] == '\0' {
                    assert(value[m] == '\0');
                    assert(value.contains('\0'));
                }
            }
            lemma_kept_segments_plain(pieces);
            lemma_kept_segments_avoid(pieces, '\0');
            let parts = kept_segments(pieces)->Ok_0;
            assert(p == seq!['/'] + join(parts, seq!['/']));
            assert forall|k: int, j: int| 0 <= k < parts.len() && 0 <= j < parts[k].len() implies #[trigger] parts[k][j]
                != '\\' by {
                assert(plain_segment(parts[k]));
                if parts[k][j] == '\\' {
                    assert(parts[k].contains('\\'));
                }
            }
            assert forall|k: int, j: int| 0 <= k < parts.len() && 0 <= j < parts[k].len() implies #[trigger] parts[k][j]
                != '/' by {
                assert(plain_segment(parts[k]));
                if parts[k][j] == '/' {
                    assert(parts[k].contains('/'));
                }
            }
            lemma_join_avoid(parts, '/', '\\');
            lemma_join_avoid(parts, '/', '\0');
            let body = join(parts, seq!['/']);
            assert(!p.contains('\0')) by {
                if p.contains('\0') {
                    let i = choose|i: int| 0 <= i < p.len() && p[i] == '\0';
                    assert(i > 0);
                    assert(p[i] == body[i - 1]);
                }
            }
            assert(replace_char(p, '\\', '/') =~= p) by {
                assert forall|i: int| 0 <= i < p.len() implies p[i] != '\\' by {
                    if i > 0 {
                        assert(p[i] == body[i - 1]);
                    }
                }
            }
            lemma_split_concat(Seq::<char>::empty(), '/', body);
            assert(Seq::<char>::empty() + seq!['/'] + body =~= p);
            lemma_kept_segments_fixed(parts);
            assert(!p.contains('\0'));
            assert(kept_segments(parts) == Ok::<Seq<Seq<char>>, Seq<char>>(parts));
            let empty = Seq::<char>::empty();
            assert(trim(empty) =~= empty);
            if parts.len() == 0 {
                assert(body =~= empty);
                assert(split(p, '/') =~= seq![empty, empty]);
                assert(seq![empty, empty].drop_first() =~= seq![empty]);
                assert(seq![empty].drop_first() =~= Seq::<Seq<char>>::empty());
                assert(kept_segments(Seq::<Seq<char>>::empty()) == Ok::<Seq<Seq<char>>, Seq<char>>(Seq::empty()));
                assert(kept_segments(seq![empty]) == Ok::<Seq<Seq<char>>, Seq<char>>(Seq::empty()));
                assert(kept_segments(seq![empty, empty]) == Ok::<Seq<Seq<char>>, Seq<char>>(Seq::empty()));
                assert(parts =~= Seq::<Seq<char>>::empty());
                assert(kept_segments(split(p, '/')) == Ok::<Seq<Seq<char>>, Seq<char>>(parts));
            } else {
                lemma_split_join(parts);
                assert(split(p, '/') =~= seq![empty] + parts);
                assert((seq![empty] + parts).drop_first() =~= parts);
                assert((seq![empty] + parts)[0] == empty);
                assert(kept_segments(seq![empty] + parts) == kept_segments(parts));
                assert(kept_segments(split(p, '/')) == Ok::<Seq<Seq<char>>, Seq<char>>(parts));
            }
            assert(kept_segments(split(replace_char(p, '\\', '/'), '/')) == Ok::<Seq<Seq<char>>, Seq<char>>(parts));
            assert("/"@ + join(parts, "/"@) == p);
        }
    }
}

/// The UTF-8 length of a concatenation is the sum of the two lengths.
proof fn lemma_encoded_concat(a: Seq<char>, b: Seq<char>)
    ensures
        encode_utf8(a + b).len() == encode_utf8(a).len() + encode_utf8(b).len(),
    decreases a.len(),
{
    if a.len() == 0 {
        assert(a + b =~= b);
    } else {
        assert((a + b).drop_first() =~= a.drop_first() + b);
        assert((a + b)[0] == a[0]);
        lemma_encoded_concat(a.drop_first(), b);
    }
}

/// Bytes that `parts` take when each is followed by a one-byte separator.
spec fn separated_len(parts: Seq<Seq<char>>) -> nat
    decreases parts.len(),
{
    if parts.len() == 0 {
        0
    } else {
        encode_utf8(parts[0]).len() + 1 + separated_len(parts.drop_first())
    }
}

proof fn lemma_separated_len_push(parts: Seq<Seq<char>>, x: Seq<char>)
    ensures
        separated_len(parts.push(x)) == separated_len(parts) + encode_utf8(x).len() + 1,
    decreases parts.len(),
{
    let longer = parts.push(x);
    if parts.len() == 0 {
        assert(longer.drop_first() =~= Seq::<Seq<char>>::empty());
        assert(separated_len(longer.drop_first()) == 0);
        assert(longer[0] == x);
        assert(separated_len(longer) == encode_utf8(x).len() + 1 + separated_len(longer.drop_first()));
    } else {
        assert(longer.drop_first() =~= parts.drop_first().push(x));
        assert(longer[0] == parts[0]);
        lemma_separated_len_push(parts.drop_first(), x);
        assert(separated_len(longer) == encode_utf8(parts[0]).len() + 1 + separated_len(longer.drop_first()));
        assert(separated_len(parts) == encode_utf8(parts[0]).len() + 1 + separated_len(parts.drop_first()));
    }
}

/// The pieces of `s` between slashes, each counted with one separator byte,
/// take one byte more than `s`.
proof fn lemma_split_separated_len(s: Seq<char>)
    ensures
        separated_len(split(s, '/')) == encode_utf8(s).len() + 1,
    decreases s.len(),
{
    let empty = Seq::<char>::empty();
    if s.len() == 0 {
        assert(seq![empty].drop_first() =~= Seq::<Seq<char>>::empty());
        assert(encode_utf8(empty) =~= Seq::<u8>::empty());
        assert(split(s, '/') == seq![empty]);
        assert(separated_len(seq![empty].drop_first()) == 0);
        assert(separated_len(seq![empty]) == encode_utf8(empty).len() + 1 + separated_len(seq![empty].drop_first()));
    } else {
        let init = split(s.drop_last(), '/');
        let c = s.last();
        lemma_split_separated_len(s.drop_last());
        crate::text::lemma_split_nonempty(s.drop_last(), '/');
        assert(s =~= s.drop_last() + seq![c]);
        lemma_encoded_concat(s.drop_last(), seq![c]);
        if c == '/' {
            lemma_separated_len_push(init, empty);
            assert(encode_utf8(empty) =~= Seq::<u8>::empty());
            assert(encode_utf8(seq![c]).len() == 1) by {
                assert(seq![c].drop_first() =~= empty);
                assert(seq![c][0] == '/');
                assert(encode_utf8(seq![c]) == vstd::utf8::encode_scalar('/' as u32) + encode_utf8(empty));
            }
            assert(split(s, '/') == init.push(empty));
        } else {
            let pre = init.drop_last();
            let last = init.last();
            assert(init =~= pre.push(last));
            assert(init.update(init.len() - 1, last.push(c)) =~= pre.push(last.push(c)));
            lemma_separated_len_push(pre, last);
            lemma_separated_len_push(pre, last.push(c));
            assert(last.push(c) =~= last + seq![c]);
            lemma_encoded_concat(last, seq![c]);
            assert(split(s, '/') == init.update(init.len() - 1, last.push(c)));
        }
    }
}

/// Replacing backslashes by slashes keeps the UTF-8 length.
proof fn lemma_replaced_len(s: Seq<char>)
    ensures
        encode_utf8(replace_char(s, '\\', '/')).len() == encode_utf8(s).len(),
    decreases s.len(),
{
    if s.len() > 0 {
        let r = replace_char(s, '\\', '/');
        assert(r.drop_first() =~= replace_char(s.drop_first(), '\\', '/'));
        lemma_replaced_len(s.drop_first());
    }
}

proof fn lemma_trim_start_len(s: Seq<char>)
    ensures
        encode_utf8(crate::text::trim_start(s)).len() <= encode_utf8(s).len(),
    decreases s.len(),
{
    if s.len() > 0 && spec_is_whitespace(s[0]) {
        lemma_trim_start_len(s.drop_first());
    }
}

proof fn lemma_trim_end_len(s: Seq<char>)
    ensures
        encode_utf8(crate::text::trim_end(s)).len() <= encode_utf8(s).len(),
    decreases s.len(),
{
    if s.len() > 0 && spec_is_whitespace(s.last()) {
        lemma_trim_end_len(s.drop_last());
        assert(s =~= s.drop_last() + seq![s.last()]);
        lemma_encoded_concat(s.drop_last(), seq![s.last()]);
    }
}

/// Keeping segments never adds bytes.
proof fn lemma_kept_segments_len(pieces: Seq<Seq<char>>)
    ensures
        kept_segments(pieces) matches Ok(parts) ==> separated_len(parts) <= separated_len(pieces),
    decreases pieces.len(),
{
    if pieces.len() > 0 {
        lemma_kept_segments_len(pieces.drop_first());
        let t = trim(pieces[0]);
        lemma_trim_start_len(pieces[0]);
        lemma_trim_end_len(crate::text::trim_start(pieces[0]));
        if let Ok(parts) = kept_segments(pieces) {
            if !(t.len() == 0 || t == "."@) {
                let rest = kept_segments(pieces.drop_first())->Ok_0;
                assert(parts == seq![t] + rest);
                assert((seq![t] + rest).drop_first() =~= rest);
                assert((seq![t] + rest)[0] == t);
            }
        }
    }
}

/// Joining non-empty `parts` with one-byte slashes takes one byte less than
/// counting a separator after each.
proof fn lemma_join_len(parts: Seq<Seq<char>>)
    requires
        parts.len() > 0,
    ensures
        encode_utf8(join(parts, seq!['/'])).len() + 1 == separated_len(parts),
    decreases parts.len(),
{
    let slash = seq!['/'];
    assert(encode_utf8(slash).len() == 1) by {
        assert(slash.drop_first() =~= Seq::<char>::empty());
        assert(encode_utf8(Seq::<char>::empty()) =~= Seq::<u8>::empty());
        assert(encode_utf8(slash) == vstd::utf8::encode_scalar('/' as u32) + encode_utf8(slash.drop_first()));
    }
    if parts.len() == 1 {
        assert(parts.drop_first() =~= Seq::<Seq<char>>::empty());
        assert(separated_len(parts.drop_first()) == 0);
        assert(join(parts, slash) == parts[0]);
    } else {
        let pre = parts.drop_last();
        lemma_join_len(pre);
        assert(parts =~= pre.push(parts.last()));
        lemma_separated_len_push(pre, parts.last());
        lemma_encoded_concat(join(pre, slash) + slash, parts.last());
        lemma_encoded_concat(join(pre, slash), slash);
        assert(join(parts, slash) == join(pre, slash) + slash + parts.last());
    }
}

/// A normalized path is at most one byte longer than the path it came from
/// (the leading `/`).
proof fn lemma_normalized_len(value: Seq<char>, byte_len: usize)
    ensures
        normalized_path(value, byte_len) matches Ok(p) ==> encode_utf8(p).len() <= encode_utf8(value).len() + 1,
{
    reveal_strlit("/");
    assert("/"@ =~= seq!['/']);
    if let Ok(p) = normalized_path(value, byte_len) {
        let replaced = replace_char(value, '\\', '/');
        let pieces = split(replaced, '/');
        lemma_replaced_len(value);
        lemma_split_separated_len(replaced);
        lemma_kept_segments_len(pieces);
        let parts = kept_segments(pieces)->Ok_0;
        let slash = seq!['/'];
        assert(p == slash + join(parts, slash));
        lemma_encoded_concat(slash, join(parts, slash));
        assert(encode_utf8(slash).len() == 1) by {
            assert(slash.drop_first() =~= Seq::<char>::empty());
            assert(encode_utf8(Seq::<char>::empty()) =~= Seq::<u8>::empty());
            assert(encode_utf8(slash) == vstd::utf8::encode_scalar('/' as u32) + encode_utf8(slash.drop_first()));
        }
        if parts.len() > 0 {
            lemma_join_len(parts);
        } else {
            assert(join(parts, slash) =~= Seq::<char>::empty());
            assert(encode_utf8(Seq::<char>::empty()) =~= Seq::<u8>::empty());
        }
    }
}

/// A path of fewer than 1024 bytes that normalizes is normalized once and
/// for all: normalizing the result gives it back unchanged. Over a string's
/// own `len()`, `normalize_virtual_path` ensures the same.
pub proof fn law_short_paths_normalize_once(value: Seq<char>)
    requires
        encode_utf8(value).len() < 1024,
    ensures
        normalized_path(value, utf8_len(value)) matches Ok(p) ==> normalized_path(p, utf8_len(p)) == Ok::<
            Seq<char>,
            Seq<char>,
        >(p),
{
    lemma_normalized_len(value, utf8_len(value));
    law_normalizing_twice_changes_nothing(value, utf8_len(value));
}

/// Virtual paths never leave the item tree: a path that normalizes becomes
/// `/` followed by segments joined with `/`, and no segment is blank, `.`
/// or `..`, holds a slash of either kind, or has surrounding white space.
pub proof fn law_virtual_paths_stay_inside(value: Seq<char>, byte_len: usize)
    ensures
        normalized_path(value, byte_len) matches Ok(p) ==> exists|parts: Seq<Seq<char>>|
            p == "/"@ + join(parts, "/"@) && forall|k: int| 0 <= k < parts.len() ==> #[trigger] plain_segment(parts[k]),
{
    let replaced = replace_char(value, '\\', '/');
    let pieces = split(replaced, '/');
    lemma_split_piece_chars(replaced, '/');
    assert forall|i: int, j: int| 0 <= i < pieces.len() && 0 <= j < pieces[i].len() implies #[trigger] pieces[i][j]
        != '/' && pieces[i][j] != '\\' by {
        assert(replaced.contains(pieces[i][j]));
        let m = choose|m: int| 0 <= m < replaced.len() && replaced[m] == pieces[i][j];
        assert(replaced[m] != '\\');
    }
    lemma_kept_segments_plain(pieces);
    if let Ok(p) = normalized_path(value, byte_len) {
        let parts = kept_segments(pieces)->Ok_0;
        assert(p == "/"@ + join(parts, "/"@));
    }
}

/// The workspace a switch selects is the one later requests read: the
/// name and value at the front of the `Set-Cookie` header, returned as a
/// `Cookie` header, read back as the same workspace. This holds for any
/// workspace identifier without `;` that does not end in white space.
pub proof fn law_workspace_cookie_round_trip(organization_id: Seq<char>, public_base_url: Seq<char>)
    requires
        !organization_id.contains(';'),
        organization_id.len() == 0 || !spec_is_whitespace(organization_id.last()),
    ensures
        cookie_value(split(split(spec_workspace_cookie_header(organization_id, public_base_url), ';')[0], ';'))
            == Some(organization_id),
{
    reveal_strlit("vault_workspace=");
    reveal_strlit("vault_workspace");
    reveal_strlit("; Path=/; HttpOnly; SameSite=Lax; Max-Age=31536000");
    let name = "vault_workspace"@;
    let pair = "vault_workspace="@ + organization_id;
    let header = spec_workspace_cookie_header(organization_id, public_base_url);
    assert("vault_workspace="@ =~= name + seq!['=']);
    assert(!pair.contains(';')) by {
        if pair.contains(';') {
            let k = choose|k: int| 0 <= k < pair.len() && pair[k] == ';';
            if k >= 16 {
                assert(organization_id[k - 16] == ';');
            }
        }
    }
    let k = pair.len() as int;
    assert(header[k] == ';');
    assert(header.take(k) =~= pair);
    lemma_split_first(header, ';', k);
    lemma_split_without_sep(pair, ';');
    assert(pair[0] == 'v');
    assert(!spec_is_whitespace(pair.last())) by {
        if organization_id.len() == 0 {
            assert(pair.last() == '=');
        } else {
            assert(pair.last() == organization_id.last());
        }
    }
    lemma_trim_unchanged(pair);
    assert(!name.contains('=')) by {
        if name.contains('=') {
            let j = choose|j: int| 0 <= j < name.len() && name[j] == '=';
            assert(name[j] != '=');
        }
    }
    lemma_split_once_at(name, '=', organization_id);
    assert(name + seq!['='] + organization_id =~= pair);
    assert(split(pair, ';')[0] == pair);
}

/// The characters that may stand in a form-encoded query value: ASCII
/// letters and digits, `*`, `-`, `.`, `_`, and the `+` and `%` that encode
/// everything else.
pub open spec fn query_safe_char(c: char) -> bool {
    ('0' <= c <= '9') || ('A' <= c <= 'Z') || ('a' <= c <= 'z') || c == '*' || c == '-' || c == '.' || c == '_'
        || c == '+' || c == '%'
}

proof fn lemma_form_byte_safe(b: u8)
    ensures
        forall|i: int| 0 <= i < form_byte(b).len() ==> query_safe_char(#[trigger] form_byte(b)[i]),
{
    assert(b / 16 < 16);
    assert(b % 16 < 16);
}

proof fn lemma_form_encoded_safe(bytes: Seq<u8>)
    ensures
        forall|i: int| 0 <= i < form_encoded(bytes).len() ==> query_safe_char(#[trigger] form_encoded(bytes)[i]),
    decreases bytes.len(),
{
    if bytes.len() > 0 {
        lemma_form_encoded_safe(bytes.drop_last());
        lemma_form_byte_safe(bytes.last());
        let head = form_encoded(bytes.drop_last());
        assert forall|i: int| 0 <= i < form_encoded(bytes).len() implies query_safe_char(#[trigger] form_encoded(bytes)[i]) by {
            if i < head.len() {
                assert(form_encoded(bytes)[i] == head[i]);
            } else {
                assert(form_encoded(bytes)[i] == form_byte(bytes.last())[i - head.len()]);
            }
        }
    }
}

/// A value placed in a query string cannot change its shape: its form
/// encoding never holds `&`, `=`, `#`, `?`, `/` or white space, only the
/// characters of `query_safe_char`.
pub proof fn law_form_encoding_is_query_safe(value: Seq<char>)
    ensures
        forall|i: int| 0 <= i < form_encoded_text(value).len() ==> query_safe_char(#[trigger] form_encoded_text(value)[i]),
{
    lemma_form_encoded_safe(vstd::utf8::encode_utf8(value));
}

/// Accepted settings keep the upload limits nested: resumable chunks fit
/// in a single request, a single request fits the server maximum (and,
/// with a mebibyte of framing, the platform's memory), the maximum fits the
/// database's signed integers, and sessions last a positive, representable
/// number of seconds.
pub proof fn law_accepted_config_limits_nest(input: ConfigInput)
    requires
        config_error(input) is None,
    ensures
        ({
            let server = numeric_setting(opt_view(input.server_max_upload_bytes), 10737418240, u64::MAX)->Some_0;
            let legacy = numeric_setting(opt_view(input.legacy_max_upload_bytes), 104857600, u64::MAX)->Some_0;
            let chunk = numeric_setting(opt_view(input.tus_chunk_size_bytes), 16777216, u64::MAX)->Some_0;
            let ttl = numeric_setting(opt_view(input.tus_session_ttl_seconds), 604800, u64::MAX)->Some_0;
            &&& 1 <= chunk <= legacy <= server <= i64::MAX
            &&& legacy + 1048576 <= usize::MAX
            &&& 1 <= ttl <= i64::MAX
        }),
{
}

/// A workspace limit saved from the settings form is read back unchanged
/// by every upload path, stays within the server maximum, and is at least
/// one byte, provided the maximum itself is valid as accepted settings
/// make it.
pub proof fn law_workspace_limit_reads_back(max_upload_mb: u64, server_max: u64)
    requires
        1 <= server_max <= i64::MAX,
    ensures
        ({
            let stored = spec_settings_limit(max_upload_mb, server_max);
            &&& 1 <= stored <= server_max
            &&& spec_tus_workspace_limit(Some(stored)) == stored as u64
            &&& spec_api_workspace_limit(Some(stored), server_max) == stored as u64
            &&& spec_max_upload_mb(stored as u64, server_max) == stored as u64 / MIB
        }),
{
    let mb: int = if max_upload_mb < 1 { 1 } else { max_upload_mb as int };
    let requested: int = if mb * MIB > u64::MAX { u64::MAX as int } else { mb * MIB };
    assert(requested >= 1) by (nonlinear_arith)
        requires
            mb >= 1,
            requested == (if mb * MIB > u64::MAX { u64::MAX as int } else { mb * MIB }),
    ;
}

/// Resumable uploads continue from the confirmed offset: while a session
/// is uploading, a chunk at any other offset is refused with the offset to
/// resume from; a chunk at the confirmed offset that fits is accepted, the
/// next confirmed offset is the end of that chunk, and the session is
/// complete exactly when that end is the declared length.
pub proof fn law_resume_from_confirmed_offset(acknowledged: i64, expected: i64, offset: u64, body_len: u64)
    requires
        0 <= acknowledged <= expected,
    ensures
        offset != acknowledged as u64 ==> spec_chunk_step("uploading"@, false, acknowledged, expected, offset, body_len)
            == Err::<ChunkStep, ChunkRefusal>(ChunkRefusal::Conflict { expected: acknowledged as u64 }),
        offset == acknowledged as u64 && offset + body_len <= expected ==> spec_chunk_step(
            "uploading"@,
            false,
            acknowledged,
            expected,
            offset,
            body_len,
        ) == Ok::<ChunkStep, ChunkRefusal>(
            ChunkStep {
                server_offset: offset,
                next_offset: (offset + body_len) as u64,
                complete: offset + body_len == expected,
            },
        ),
        offset == acknowledged as u64 && offset + body_len > expected ==> spec_chunk_step(
            "uploading"@,
            false,
            acknowledged,
            expected,
            offset,
            body_len,
        ) is Err,
{
}

/// Text in which the separator `/` does not occur splits into itself.
proof fn lemma_single_piece(s: Seq<char>)
    requires
        forall|i: int| 0 <= i < s.len() ==> #[trigger] s[i] != '/',
    ensures
        split(s, '/') == seq![s],
{
    assert(!s.contains('/')) by {
        if s.contains('/') {
            let i = choose|i: int| 0 <= i < s.len() && s[i] == '/';
            assert(s[i] != '/');
        }
    }
    lemma_split_without_sep(s, '/');
}

/// Blobs are filed where they can be read back: the key under which a new
/// blob is stored (for a non-empty workspace identifier, a hexadecimal
/// digest and a blob identifier without `/` that is not `..`) is always
/// accepted as a safe storage key when the blob is served or removed.
pub proof fn law_blob_keys_are_readable(organization_id: Seq<char>, sha256: Seq<char>, blob_id: Seq<char>)
    requires
        organization_id.len() > 0,
        sha256.len() >= 4,
        forall|i: int| 0 <= i < 4 ==> is_hex_digit(#[trigger] sha256[i]),
        forall|i: int| 0 <= i < blob_id.len() ==> #[trigger] blob_id[i] != '/',
        blob_id != ".."@,
    ensures
        is_safe_storage_key(spec_blob_storage_key(organization_id, sha256, blob_id)),
{
    reveal_strlit("/");
    reveal_strlit(".");
    reveal_strlit("..");
    let c = spec_safe_component(organization_id);
    let a = sha256.subrange(0, 2);
    let b = sha256.subrange(2, 4);
    let key = spec_blob_storage_key(organization_id, sha256, blob_id);
    assert("/"@ =~= seq!['/']);
    assert forall|i: int| 0 <= i < c.len() implies #[trigger] c[i] != '/' && c[i] != '.' by {
        if component_char_ok(organization_id[i]) {
            assert(c[i] == organization_id[i]);
        }
    }
    assert forall|i: int| 0 <= i < a.len() implies #[trigger] a[i] != '/' && a[i] != '.' by {
        assert(a[i] == sha256[i]);
        assert(is_hex_digit(sha256[i]));
    }
    assert forall|i: int| 0 <= i < b.len() implies #[trigger] b[i] != '/' && b[i] != '.' by {
        assert(b[i] == sha256[i + 2]);
        assert(is_hex_digit(sha256[i + 2]));
    }
    lemma_single_piece(c);
    lemma_single_piece(a);
    lemma_single_piece(b);
    lemma_single_piece(blob_id);
    lemma_split_concat(c, '/', a);
    lemma_split_concat(c + seq!['/'] + a, '/', b);
    lemma_split_concat(c + seq!['/'] + a + seq!['/'] + b, '/', blob_id);
    assert(key =~= c + seq!['/'] + a + seq!['/'] + b + seq!['/'] + blob_id);
    let pieces = split(key, '/');
    assert(pieces =~= seq![c, a, b, blob_id]);
    assert(key[0] == c[0]);
    assert(c != "."@) by {
        if c == "."@ {
            assert(c[0] == '.');
        }
    }
    assert(c != ".."@) by {
        if c == ".."@ {
            assert(c[0] == '.');
        }
    }
    assert(a != ".."@) by {
        if a == ".."@ {
            assert(a[0] == '.');
        }
    }
    assert(b != ".."@) by {
        if b == ".."@ {
            assert(b[0] == '.');
        }
    }
    assert(!crate::text::starts_with(key, "/"@)) by {
        assert(key.take(1)[0] == c[0]);
    }
}

} // verus!

verus! {

/// Cleaning tags that are distinct, storable and unchanged by trimming and
/// lowercasing keeps every one of them, after those already collected.
proof fn lemma_cleaned_settled(tags: Seq<Seq<char>>, acc: Seq<Seq<char>>)
    requires
        (acc + tags).no_duplicates(),
        forall|k: int| 0 <= k < tags.len() ==> stored_tag(#[trigger] tags[k]),
        forall|k: int| 0 <= k < tags.len() ==> spec_to_lowercase(trim(#[trigger] tags[k])) == tags[k],
    ensures
        cleaned_tags(tags, acc) == Ok::<Seq<Seq<char>>, Seq<char>>(acc + tags),
    decreases tags.len(),
{
    if tags.len() == 0 {
        assert(acc + tags =~= acc);
    } else {
        let t = tags[0];
        assert(stored_tag(t));
        assert(spec_to_lowercase(trim(tags[0])) == t);
        assert((acc + tags)[acc.len() as int] == t);
        if acc.contains(t) {
            let j = choose|j: int| 0 <= j < acc.len() && acc[j] == t;
            assert((acc + tags)[j] == t);
        }
        assert(acc.push(t) + tags.drop_first() =~= acc + tags);
        assert forall|k: int| 0 <= k < tags.drop_first().len() implies stored_tag(#[trigger] tags.drop_first()[k]) by {
            assert(tags.drop_first()[k] == tags[k + 1]);
        }
        assert forall|k: int| 0 <= k < tags.drop_first().len() implies spec_to_lowercase(trim(#[trigger] tags.drop_first()[k]))
            == tags.drop_first()[k] by {
            assert(tags.drop_first()[k] == tags[k + 1]);
        }
        lemma_cleaned_settled(tags.drop_first(), acc.push(t));
    }
}

/// Validating an accepted tag list again returns it unchanged, whenever
/// trimming and lowercasing leave each accepted tag as it is. Every accepted
/// tag is already trimmed and lowercased; that lowercasing such text once
/// more changes nothing is not something this library claims of std.
pub proof fn law_revalidating_accepted_tags(tags: Seq<Seq<char>>)
    ensures
        validated_tags(tags) matches Ok(c) ==> (
            (forall|k: int| 0 <= k < c.len() ==> spec_to_lowercase(trim(#[trigger] c[k])) == c[k])
                ==> validated_tags(c) == Ok::<Seq<Seq<char>>, Seq<char>>(c)
        ),
{
    if let Ok(c) = validated_tags(tags) {
        lemma_cleaned_tags_shape(tags, Seq::empty());
        if forall|k: int| 0 <= k < c.len() ==> spec_to_lowercase(trim(#[trigger] c[k])) == c[k] {
            let empty = Seq::<Seq<char>>::empty();
            assert(empty + c =~= c);
            lemma_cleaned_settled(c, empty);
        }
    }
}

} // verus!

verus! {

// ---------------------------------------------------------------------------
// What the operations are for
// ---------------------------------------------------------------------------

/// Where a resumable upload is filed: the `virtualPath` metadata entry when
/// there is one, else the `path` entry, each normalized; the root folder
/// only when the metadata names neither.
pub proof fn law_upload_folder_from_metadata(
    length: u64,
    limit: u64,
    metadata_header: Seq<char>,
    header_bytes: usize,
    r: UploadRequest,
)
    requires
        spec_upload_request_ok(length, limit, metadata_header, header_bytes, r),
    ensures
        spec_metadata(metadata_header) matches Ok(entries) && {
            &&& metadata_value(entries, "virtualPath"@) matches Some(p) ==> normalized_path(p, utf8_len(p))
                == Ok::<Seq<char>, Seq<char>>(r.virtual_path@)
            &&& metadata_value(entries, "virtualPath"@) is None ==> (metadata_value(entries, "path"@) matches Some(p)
                ==> normalized_path(p, utf8_len(p)) == Ok::<Seq<char>, Seq<char>>(r.virtual_path@))
            &&& (metadata_value(entries, "virtualPath"@) is None && metadata_value(entries, "path"@) is None) ==> (
                r.virtual_path@ == "/"@)
        },
{
    reveal_strlit("/");
    let entries = spec_metadata(metadata_header)->Ok_0;
    if metadata_value(entries, "virtualPath"@) is None && metadata_value(entries, "path"@) is None {
        law_normalizing_twice_changes_nothing("/"@, 1);
        let single = seq!['/'];
        assert("/"@ =~= single);
        assert(normalized_path(single, utf8_len(single)) == Ok::<Seq<char>, Seq<char>>(r.virtual_path@));
        assert(utf8_len(single) == 1) by {
            assert(single.drop_first() =~= Seq::<char>::empty());
            assert(encode_utf8(Seq::<char>::empty()) =~= Seq::<u8>::empty());
            assert(encode_utf8(single) == vstd::utf8::encode_scalar('/' as u32) + encode_utf8(single.drop_first()));
        }
        lemma_root_normalizes();
    }
}

/// The other facts a resumable upload keeps from its creation request: the
/// declared length; the file name from the `filename` entry made safe (or
/// `upload.bin` when there is none or nothing safe is left of it); and the
/// `contentType` entry when it is at most 255 bytes without line breaks.
pub proof fn law_upload_keeps_what_metadata_names(
    length: u64,
    limit: u64,
    metadata_header: Seq<char>,
    header_bytes: usize,
    r: UploadRequest,
)
    requires
        spec_upload_request_ok(length, limit, metadata_header, header_bytes, r),
    ensures
        r.length == length,
        length <= limit,
        header_bytes <= 8192,
        spec_metadata(metadata_header) matches Ok(entries) && {
            &&& (metadata_value(entries, "filename"@) matches Some(n) ==> (spec_safe_filename(n).len() > 0 ==> r.filename@
                == spec_safe_filename(n)) && (spec_safe_filename(n).len() == 0 ==> r.filename@ == "upload.bin"@))
            &&& (metadata_value(entries, "filename"@) is None ==> r.filename@ == "upload.bin"@)
            &&& (metadata_value(entries, "contentType"@) matches Some(m) ==> ((utf8_len(m) <= 255 && !m.contains('\r')
                && !m.contains('\n')) ==> opt_view(r.declared_mime) == Some(m)) && (!(utf8_len(m) <= 255 && !m.contains(
                '\r') && !m.contains('\n')) ==> r.declared_mime is None))
            &&& (metadata_value(entries, "contentType"@) is None ==> r.declared_mime is None)
        },
{
}

/// The root folder normalizes to itself.
proof fn lemma_root_normalizes()
    ensures
        normalized_path(seq!['/'], 1) == Ok::<Seq<char>, Seq<char>>(seq!['/']),
{
    let single = seq!['/'];
    let empty = Seq::<char>::empty();
    reveal_strlit("/");
    reveal_strlit(".");
    reveal_strlit("..");
    assert("/"@ =~= single);
    assert(!single.contains('\0')) by {
        if single.contains('\0') {
            let i = choose|i: int| 0 <= i < single.len() && single[i] == '\0';
            assert(single[i] == '/');
        }
    }
    assert(replace_char(single, '\\', '/') =~= single);
    assert(single.drop_last() =~= empty);
    assert(split(empty, '/') == seq![empty]);
    assert(split(single, '/') =~= seq![empty, empty]);
    assert(trim(empty) =~= empty) by {
        lemma_trim_unchanged(empty);
    }
    assert(seq![empty, empty].drop_first() =~= seq![empty]);
    assert(seq![empty].drop_first() =~= Seq::<Seq<char>>::empty());
    assert(kept_segments(Seq::<Seq<char>>::empty()) == Ok::<Seq<Seq<char>>, Seq<char>>(Seq::empty()));
    assert(seq![empty][0] == empty);
    assert(seq![empty, empty][0] == empty);
    assert(kept_segments(seq![empty]) == Ok::<Seq<Seq<char>>, Seq<char>>(Seq::empty()));
    assert(kept_segments(seq![empty, empty]) == Ok::<Seq<Seq<char>>, Seq<char>>(Seq::empty()));
    assert(join(Seq::<Seq<char>>::empty(), "/"@) =~= empty);
    assert("/"@ + empty =~= single);
}

/// A PDF signature gets a PDF preview, and every recognised image signature
/// an image preview with that format's media type, whatever the stored media
/// type and file name say.
pub proof fn law_image_signatures_preview_as_images(sample: Seq<u8>, mime: Seq<char>, filename: Seq<char>)
    ensures
        starts_with(sample, seq![0x25u8, 0x50, 0x44, 0x46, 0x2d]) ==> spec_classify(sample, mime, filename)
            == ("pdf"@, "application/pdf"@, Seq::<char>::empty()),
        starts_with(sample, seq![0x89u8, 0x50, 0x4e, 0x47, 0x0d, 0x0a, 0x1a, 0x0a]) ==> spec_classify(sample, mime, filename)
            == ("image"@, "image/png"@, Seq::<char>::empty()),
        starts_with(sample, seq![0xffu8, 0xd8, 0xff]) ==> spec_classify(sample, mime, filename)
            == ("image"@, "image/jpeg"@, Seq::<char>::empty()),
        (starts_with(sample, seq![0x47u8, 0x49, 0x46, 0x38, 0x37, 0x61]) || starts_with(sample, seq![0x47u8, 0x49, 0x46, 0x38, 0x39, 0x61]))
            ==> spec_classify(sample, mime, filename) == ("image"@, "image/gif"@, Seq::<char>::empty()),
        (sample.len() >= 12 && sample.take(4) == seq![0x52u8, 0x49, 0x46, 0x46] && sample.subrange(8, 12) == seq![0x57u8, 0x45, 0x42, 0x50])
            ==> spec_classify(sample, mime, filename) == ("image"@, "image/webp"@, Seq::<char>::empty()),
        starts_with(sample, seq![0x42u8, 0x4d]) ==> spec_classify(sample, mime, filename)
            == ("image"@, "image/bmp"@, Seq::<char>::empty()),
        starts_with(sample, seq![0u8, 0, 1, 0]) ==> spec_classify(sample, mime, filename)
            == ("image"@, "image/x-icon"@, Seq::<char>::empty()),
        (sample.len() >= 12 && sample[0] == 0 && sample[1] == 0 && sample[2] == 0 && sample.subrange(4, 8) == seq![0x66u8, 0x74, 0x79, 0x70]
            && (sample.subrange(8, 12) == seq![0x61u8, 0x76, 0x69, 0x66] || sample.subrange(8, 12) == seq![0x61u8, 0x76, 0x69, 0x73]))
            ==> spec_classify(sample, mime, filename) == ("image"@, "image/avif"@, Seq::<char>::empty()),
{
    let pdf = seq![0x25u8, 0x50, 0x44, 0x46, 0x2d];
    if sample.len() > 0 && sample[0] != 0x25 {
        assert(!starts_with(sample, pdf)) by {
            if starts_with(sample, pdf) {
                assert(sample.take(5)[0] == sample[0]);
            }
        }
    }
    if sample.len() >= 2 {
        assert(sample.take(2)[0] == sample[0]);
        assert(sample.take(2)[1] == sample[1]);
    }
    if sample.len() >= 3 {
        assert(sample.take(3)[0] == sample[0]);
    }
    if sample.len() >= 4 {
        assert(sample.take(4)[0] == sample[0]);
        assert(sample.take(4)[1] == sample[1]);
        assert(sample.take(4)[2] == sample[2]);
        assert(sample.take(4) =~= sample.subrange(0, 4));
    }
    if sample.len() >= 6 {
        assert(sample.take(6)[0] == sample[0]);
    }
    if sample.len() >= 8 {
        assert(sample.take(8)[0] == sample[0]);
    }
}

/// With the kind left to detection, a pasted link is a URL: text that,
/// once trimmed, starts with `http://` or `https://` and holds no white
/// space is stored as `url`, for both schemes; text that starts with an
/// HTML document head is `html`; detection only ever yields `url`, `html`,
/// `code` or `text`. An explicit `text`, `html`, `code` or `url` is kept
/// as asked, and any other kind but `auto` is refused.
pub proof fn law_links_are_detected_as_urls(payload: Seq<char>)
    ensures
        ((starts_with(trim(payload), "http://"@) || starts_with(trim(payload), "https://"@)) && forall|i: int|
            0 <= i < trim(payload).len() ==> !spec_is_whitespace(#[trigger] trim(payload)[i])) ==> detected_kind(
            payload,
            "auto"@,
        ) == Ok::<Seq<char>, Seq<char>>("url"@),
        ((starts_with(trim(payload), "<!DOCTYPE html"@) || starts_with(trim(payload), "<html"@))) ==> detected_kind(
            payload,
            "auto"@,
        ) == Ok::<Seq<char>, Seq<char>>("html"@),
        detected_kind(payload, "auto"@) matches Ok(k) ==> (k == "url"@ || k == "html"@ || k == "code"@ || k == "text"@),
        forall|requested: Seq<char>|
            #![trigger detected_kind(payload, requested)]
            (requested == "text"@ || requested == "html"@ || requested == "code"@ || requested == "url"@) ==> detected_kind(
                payload,
                requested,
            ) == Ok::<Seq<char>, Seq<char>>(requested),
        forall|requested: Seq<char>|
            #![trigger detected_kind(payload, requested)]
            !(requested == "auto"@ || requested == "text"@ || requested == "html"@ || requested == "code"@ || requested
                == "url"@) ==> detected_kind(payload, requested) is Err,
{
    reveal_strlit("<!DOCTYPE html");
    reveal_strlit("<html");
    reveal_strlit("auto");
    reveal_strlit("text");
    reveal_strlit("html");
    reveal_strlit("code");
    reveal_strlit("url");
    reveal_strlit("http://");
    reveal_strlit("https://");
    assert forall|requested: Seq<char>|
        (requested == "text"@ || requested == "html"@ || requested == "code"@ || requested == "url"@) implies detected_kind(
            payload,
            requested,
        ) == Ok::<Seq<char>, Seq<char>>(requested) by {
        assert(requested[0] != 'a');
        assert(requested != "auto"@) by {
            if requested == "auto"@ {
                assert(requested[0] == 'a');
            }
        }
    }
    let t = trim(payload);
    if starts_with(t, "<!DOCTYPE html"@) || starts_with(t, "<html"@) {
        assert(t.take(1)[0] == '<');
        assert(!starts_with(t, "http://"@)) by {
            if starts_with(t, "http://"@) {
                assert(t.take(7)[0] == t[0]);
                assert(t.take(1)[0] == t[0]);
            }
        }
        assert(!starts_with(t, "https://"@)) by {
            if starts_with(t, "https://"@) {
                assert(t.take(8)[0] == t[0]);
                assert(t.take(1)[0] == t[0]);
            }
        }
    }
}

/// A source URL whose trimmed text fits 2048 bytes and parses with the
/// `http` or the `https` scheme is accepted as that trimmed text; one with
/// any other scheme, one that does not parse and one over 2048 bytes are
/// refused; a blank or absent one means no source. Whatever is accepted is
/// the trimmed text with one of the two web schemes.
pub proof fn law_web_source_urls_are_accepted(value: Seq<char>, field: Seq<char>)
    ensures
        ({
            let t = trim(value);
            t.len() > 0 && utf8_len(t) <= 2048 ==> {
                &&& (spec_url_scheme(t) == Some("http"@) || spec_url_scheme(t) == Some("https"@)) ==> spec_source_url(
                    Some(value),
                    field,
                ) == Ok::<Option<Seq<char>>, Seq<char>>(Some(t))
                &&& (spec_url_scheme(t) matches Some(s) && s != "http"@ && s != "https"@) ==> spec_source_url(
                    Some(value),
                    field,
                ) is Err
                &&& spec_url_scheme(t) is None ==> spec_source_url(Some(value), field) is Err
            }
        }),
        trim(value).len() == 0 ==> spec_source_url(Some(value), field) == Ok::<Option<Seq<char>>, Seq<char>>(None),
        utf8_len(trim(value)) > 2048 ==> spec_source_url(Some(value), field) is Err,
        spec_source_url(None, field) == Ok::<Option<Seq<char>>, Seq<char>>(None),
        spec_source_url(Some(value), field) matches Ok(Some(u)) ==> u == trim(value) && (spec_url_scheme(u) == Some("http"@)
            || spec_url_scheme(u) == Some("https"@)),
{
}

/// Each CSV column holds the item field its header names: `id`, `type`
/// (the kind), `filename` (blank when none), `virtual_path`, `size_bytes`
/// in decimal, `created_at`, and `payload` (blank when none).
pub proof fn law_csv_columns_follow_the_header(item: ItemRow)
    ensures
        csv_header().len() == 7 && csv_row(item).len() == 7,
        csv_header()[0] == "id"@ && csv_row(item)[0] == item.id@,
        csv_header()[1] == "type"@ && csv_row(item)[1] == item.kind@,
        csv_header()[2] == "filename"@ && csv_row(item)[2] == (match item.original_filename {
            Some(f) => f@,
            None => Seq::<char>::empty(),
        }),
        csv_header()[3] == "virtual_path"@ && csv_row(item)[3] == item.virtual_path@,
        csv_header()[4] == "size_bytes"@ && csv_row(item)[4] == crate::number::signed_decimal(item.size_bytes as int),
        csv_header()[5] == "created_at"@ && csv_row(item)[5] == item.created_at@,
        csv_header()[6] == "payload"@ && csv_row(item)[6] == (match item.text_payload {
            Some(t) => t@,
            None => Seq::<char>::empty(),
        }),
{
}

/// Two item lists that agree, item by item, on the exported fields export
/// the same bytes: the update time, tags, owner and every other field left
/// out of the CSV make no difference.
pub proof fn law_csv_export_reads_only_exported_fields(a: Seq<ItemRow>, b: Seq<ItemRow>)
    requires
        a.len() == b.len(),
        forall|k: int| 0 <= k < a.len() ==> {
            &&& (#[trigger] a[k]).id@ == b[k].id@
            &&& a[k].kind@ == b[k].kind@
            &&& opt_view(a[k].original_filename) == opt_view(b[k].original_filename)
            &&& a[k].virtual_path@ == b[k].virtual_path@
            &&& a[k].size_bytes == b[k].size_bytes
            &&& a[k].created_at@ == b[k].created_at@
            &&& opt_view(a[k].text_payload) == opt_view(b[k].text_payload)
        },
    ensures
        spec_csv_export(a) == spec_csv_export(b),
    decreases a.len(),
{
    if a.len() > 0 {
        let n = a.len() - 1;
        assert forall|k: int| 0 <= k < a.drop_last().len() implies {
            &&& (#[trigger] a.drop_last()[k]).id@ == b.drop_last()[k].id@
            &&& a.drop_last()[k].kind@ == b.drop_last()[k].kind@
            &&& opt_view(a.drop_last()[k].original_filename) == opt_view(b.drop_last()[k].original_filename)
            &&& a.drop_last()[k].virtual_path@ == b.drop_last()[k].virtual_path@
            &&& a.drop_last()[k].size_bytes == b.drop_last()[k].size_bytes
            &&& a.drop_last()[k].created_at@ == b.drop_last()[k].created_at@
            &&& opt_view(a.drop_last()[k].text_payload) == opt_view(b.drop_last()[k].text_payload)
        } by {
            assert(a.drop_last()[k] == a[k]);
            assert(b.drop_last()[k] == b[k]);
        }
        law_csv_export_reads_only_exported_fields(a.drop_last(), b.drop_last());
        assert(a[n].id@ == b[n].id@);
        assert(csv_row(a.last()) =~= csv_row(b.last()));
    }
}

} // verus!

