//! The fingerprint of the static assets that asset URLs carry: a digest of
//! every file's path and contents, in path order, so that any change to
//! any asset yields new URLs.
use vstd::prelude::*;

use crate::digest::{hex_encode, hex_of, is_hex_digit, lemma_hex_digits, sha256, spec_sha256};
use crate::text::{chars_of, ends_with, ends_with_lit, join, join_chars, string_from};

verus! {

/// One asset file: the names leading to it below the asset directory (the
/// last one is the file's own name) and its bytes.
pub struct AssetFile {
    pub names: Vec<String>,
    pub contents: Vec<u8>,
}

/// The names and the bytes of an asset file.
pub open spec fn file_view(f: AssetFile) -> (Seq<Seq<char>>, Seq<u8>) {
    (f.names@.map_values(|n: String| n@), f.contents@)
}

/// Whether text `a` sorts strictly before `b`, character by character, a
/// proper prefix first.
pub open spec fn text_lt(a: Seq<char>, b: Seq<char>) -> bool
    decreases a.len(),
{
    if a.len() == 0 {
        b.len() > 0
    } else if b.len() == 0 {
        false
    } else if a[0] != b[0] {
        a[0] < b[0]
    } else {
        text_lt(a.skip(1), b.skip(1))
    }
}

/// Whether the path with names `a` sorts strictly before the path with
/// names `b`: name by name, a proper prefix first, as paths compare.
pub open spec fn names_lt(a: Seq<Seq<char>>, b: Seq<Seq<char>>) -> bool
    decreases a.len(),
{
    if a.len() == 0 {
        b.len() > 0
    } else if b.len() == 0 {
        false
    } else if a[0] != b[0] {
        text_lt(a[0], b[0])
    } else {
        names_lt(a.skip(1), b.skip(1))
    }
}

/// Where a file with names `x` goes in a sorted list: before the first
/// file that sorts after it, so that equal paths keep their order.
pub open spec fn insert_position(sorted: Seq<(Seq<Seq<char>>, Seq<u8>)>, x: Seq<Seq<char>>) -> nat
    decreases sorted.len(),
{
    if sorted.len() == 0 {
        0
    } else if names_lt(x, sorted[0].0) {
        0
    } else {
        1 + insert_position(sorted.skip(1), x)
    }
}

/// The files in path order, equal paths in the order they were listed.
pub open spec fn sorted_files(files: Seq<(Seq<Seq<char>>, Seq<u8>)>) -> Seq<(Seq<Seq<char>>, Seq<u8>)>
    decreases files.len(),
{
    if files.len() == 0 {
        files
    } else {
        let s = sorted_files(files.drop_last());
        s.insert(insert_position(s, files.last().0) as int, files.last())
    }
}

/// The path of an asset as the server names it: the asset directory joined
/// with the file's names.
pub open spec fn asset_path(root: Seq<char>, names: Seq<Seq<char>>) -> Seq<char> {
    if root.len() == 0 || ends_with(root, "/"@) {
        root + join(names, "/"@)
    } else {
        root + "/"@ + join(names, "/"@)
    }
}

/// What the fingerprint digests: each file's path in UTF-8 followed by its
/// bytes, file after file.
pub open spec fn fingerprint_data(root: Seq<char>, files: Seq<(Seq<Seq<char>>, Seq<u8>)>) -> Seq<u8>
    decreases files.len(),
{
    if files.len() == 0 {
        Seq::empty()
    } else {
        fingerprint_data(root, files.drop_last()) + vstd::utf8::encode_utf8(asset_path(root, files.last().0))
            + files.last().1
    }
}

/// The fingerprint: the first twelve hexadecimal digits of the SHA-256 of
/// the files' paths and bytes in path order.
pub open spec fn spec_fingerprint(root: Seq<char>, files: Seq<AssetFile>) -> Seq<char> {
    hex_of(spec_sha256(fingerprint_data(root, sorted_files(files.map_values(|f: AssetFile| file_view(f)))))).take(12)
}

// ---------------------------------------------------------------------------
// Path order
// ---------------------------------------------------------------------------

proof fn lemma_text_lt_irreflexive(a: Seq<char>)
    ensures
        !text_lt(a, a),
    decreases a.len(),
{
    if a.len() > 0 {
        lemma_text_lt_irreflexive(a.skip(1));
    }
}

proof fn lemma_text_lt_transitive(a: Seq<char>, b: Seq<char>, c: Seq<char>)
    requires
        text_lt(a, b),
        text_lt(b, c),
    ensures
        text_lt(a, c),
    decreases a.len(),
{
    if a.len() > 0 && b.len() > 0 && c.len() > 0 && a[0] == b[0] && b[0] == c[0] {
        lemma_text_lt_transitive(a.skip(1), b.skip(1), c.skip(1));
    }
}

proof fn lemma_text_lt_total(a: Seq<char>, b: Seq<char>)
    requires
        a != b,
    ensures
        text_lt(a, b) || text_lt(b, a),
    decreases a.len(),
{
    if a.len() > 0 && b.len() > 0 {
        if a[0] == b[0] {
            if a.skip(1) == b.skip(1) {
                assert(a.skip(1).len() == b.skip(1).len());
                assert(a =~= b) by {
                    assert forall|k: int| 0 <= k < a.len() implies a[k] == b[k] by {
                        if k > 0 {
                            assert(a[k] == a.skip(1)[k - 1]);
                            assert(b[k] == b.skip(1)[k - 1]);
                        }
                    }
                }
            }
            lemma_text_lt_total(a.skip(1), b.skip(1));
        }
    } else if a.len() == 0 && b.len() == 0 {
        assert(a =~= b);
    }
}

proof fn lemma_names_lt_irreflexive(a: Seq<Seq<char>>)
    ensures
        !names_lt(a, a),
    decreases a.len(),
{
    if a.len() > 0 {
        lemma_names_lt_irreflexive(a.skip(1));
    }
}

proof fn lemma_names_lt_transitive(a: Seq<Seq<char>>, b: Seq<Seq<char>>, c: Seq<Seq<char>>)
    requires
        names_lt(a, b),
        names_lt(b, c),
    ensures
        names_lt(a, c),
    decreases a.len(),
{
    if a.len() > 0 && b.len() > 0 && c.len() > 0 {
        if a[0] == b[0] && b[0] == c[0] {
            lemma_names_lt_transitive(a.skip(1), b.skip(1), c.skip(1));
        } else if a[0] != b[0] && b[0] != c[0] {
            lemma_text_lt_transitive(a[0], b[0], c[0]);
            if a[0] == c[0] {
                lemma_text_lt_irreflexive(a[0]);
            }
        } else if a[0] != b[0] {
            assert(a[0] != c[0]);
        } else {
            assert(a[0] != c[0]);
        }
    }
}

proof fn lemma_names_lt_asymmetric(a: Seq<Seq<char>>, b: Seq<Seq<char>>)
    requires
        names_lt(a, b),
    ensures
        !names_lt(b, a),
{
    if names_lt(b, a) {
        lemma_names_lt_transitive(a, b, a);
        lemma_names_lt_irreflexive(a);
    }
}

proof fn lemma_names_lt_total(a: Seq<Seq<char>>, b: Seq<Seq<char>>)
    requires
        a != b,
    ensures
        names_lt(a, b) || names_lt(b, a),
    decreases a.len(),
{
    if a.len() > 0 && b.len() > 0 {
        if a[0] == b[0] {
            if a.skip(1) == b.skip(1) {
                assert(a.skip(1).len() == b.skip(1).len());
                assert(a =~= b) by {
                    assert forall|k: int| 0 <= k < a.len() implies a[k] == b[k] by {
                        if k > 0 {
                            assert(a[k] == a.skip(1)[k - 1]);
                            assert(b[k] == b.skip(1)[k - 1]);
                        }
                    }
                }
            }
            lemma_names_lt_total(a.skip(1), b.skip(1));
        } else {
            lemma_text_lt_total(a[0], b[0]);
        }
    } else if a.len() == 0 && b.len() == 0 {
        assert(a =~= b);
    }
}

/// Files in path order: no file's path sorts before an earlier one's.
pub open spec fn path_sorted(s: Seq<(Seq<Seq<char>>, Seq<u8>)>) -> bool {
    forall|i: int, j: int| 0 <= i < j < s.len() ==> !names_lt(#[trigger] s[j].0, #[trigger] s[i].0)
}

/// No path occurs twice among the files.
pub open spec fn distinct_paths(s: Seq<(Seq<Seq<char>>, Seq<u8>)>) -> bool {
    forall|i: int, j: int| 0 <= i < s.len() && 0 <= j < s.len() && i != j ==> #[trigger] s[i].0 != #[trigger] s[j].0
}

proof fn lemma_insert_position(sorted: Seq<(Seq<Seq<char>>, Seq<u8>)>, x: Seq<Seq<char>>)
    ensures
        insert_position(sorted, x) <= sorted.len(),
        forall|k: int| 0 <= k < insert_position(sorted, x) ==> !names_lt(x, #[trigger] sorted[k].0),
        insert_position(sorted, x) < sorted.len() ==> names_lt(x, sorted[insert_position(sorted, x) as int].0),
    decreases sorted.len(),
{
    if sorted.len() > 0 && !names_lt(x, sorted[0].0) {
        let rest = sorted.skip(1);
        lemma_insert_position(rest, x);
        assert forall|k: int| 0 <= k < insert_position(sorted, x) implies !names_lt(x, #[trigger] sorted[k].0) by {
            if k > 0 {
                assert(sorted[k] == rest[k - 1]);
            }
        }
        if insert_position(sorted, x) < sorted.len() {
            assert(sorted[insert_position(sorted, x) as int] == rest[insert_position(rest, x) as int]);
        }
    }
}

proof fn lemma_sorted_files(files: Seq<(Seq<Seq<char>>, Seq<u8>)>)
    requires
        distinct_paths(files),
    ensures
        path_sorted(sorted_files(files)),
        distinct_paths(sorted_files(files)),
        sorted_files(files).to_multiset() == files.to_multiset(),
    decreases files.len(),
{
    broadcast use vstd::seq_lib::group_to_multiset_ensures;

    if files.len() > 0 {
        let init = files.drop_last();
        let x = files.last();
        assert(distinct_paths(init)) by {
            assert forall|i: int, j: int| 0 <= i < init.len() && 0 <= j < init.len() && i != j implies #[trigger] init[i].0
                != #[trigger] init[j].0 by {
                assert(init[i] == files[i] && init[j] == files[j]);
            }
        }
        lemma_sorted_files(init);
        let s = sorted_files(init);
        let p = insert_position(s, x.0);
        lemma_insert_position(s, x.0);
        let r = s.insert(p as int, x);
        assert(r == sorted_files(files));
        vstd::seq_lib::to_multiset_insert(s, p as int, x);
        assert(init.push(x) =~= files);
        vstd::seq_lib::to_multiset_build(init, x);
        // every earlier file has a path other than the new one
        assert forall|k: int| 0 <= k < s.len() implies #[trigger] s[k].0 != x.0 by {
            vstd::seq_lib::to_multiset_contains(s, s[k]);
            vstd::seq_lib::to_multiset_contains(init, s[k]);
            assert(s.contains(s[k]));
            let m = choose|m: int| 0 <= m < init.len() && init[m] == s[k];
            assert(files[m] == init[m]);
            assert(files[files.len() - 1] == x);
        }
        assert forall|i: int, j: int| 0 <= i < j < r.len() implies !names_lt(#[trigger] r[j].0, #[trigger] r[i].0) by {
            if j < p {
                assert(r[i] == s[i] && r[j] == s[j]);
            } else if j == p {
                assert(r[i] == s[i] && r[j] == x);
            } else if i < p {
                assert(r[i] == s[i] && r[j] == s[j - 1]);
            } else if i == p {
                assert(r[i] == x && r[j] == s[j - 1]);
                assert(names_lt(x.0, s[p as int].0));
                if j - 1 == p {
                    lemma_names_lt_asymmetric(x.0, s[p as int].0);
                } else {
                    assert(!names_lt(s[j - 1].0, s[p as int].0));
                    if s[j - 1].0 != s[p as int].0 {
                        lemma_names_lt_total(s[j - 1].0, s[p as int].0);
                        lemma_names_lt_transitive(x.0, s[p as int].0, s[j - 1].0);
                    }
                    lemma_names_lt_asymmetric(x.0, s[j - 1].0);
                }
            } else {
                assert(r[i] == s[i - 1] && r[j] == s[j - 1]);
            }
        }
        assert forall|i: int, j: int| 0 <= i < r.len() && 0 <= j < r.len() && i != j implies #[trigger] r[i].0
            != #[trigger] r[j].0 by {
            let a = if i < p { s[i] } else if i == p { x } else { s[i - 1] };
            let b = if j < p { s[j] } else if j == p { x } else { s[j - 1] };
            assert(r[i] == a && r[j] == b);
            if i != p && j != p {
                let ii = if i < p { i } else { i - 1 };
                let jj = if j < p { j } else { j - 1 };
                assert(s[ii] == a && s[jj] == b);
            } else if i == p {
                let jj = if j < p { j } else { j - 1 };
                assert(s[jj] == b);
            } else {
                let ii = if i < p { i } else { i - 1 };
                assert(s[ii] == a);
            }
        }
    }
}

proof fn lemma_sorted_unique(a: Seq<(Seq<Seq<char>>, Seq<u8>)>, b: Seq<(Seq<Seq<char>>, Seq<u8>)>)
    requires
        path_sorted(a),
        path_sorted(b),
        distinct_paths(a),
        distinct_paths(b),
        a.to_multiset() == b.to_multiset(),
    ensures
        a == b,
    decreases a.len(),
{
    broadcast use vstd::seq_lib::group_to_multiset_ensures;

    vstd::seq_lib::to_multiset_len(a);
    vstd::seq_lib::to_multiset_len(b);
    assert(a.len() == b.len());
    if a.len() == 0 {
        assert(a =~= b);
    } else {
        vstd::seq_lib::to_multiset_contains(b, a[0]);
        vstd::seq_lib::to_multiset_contains(a, a[0]);
        vstd::seq_lib::to_multiset_contains(a, b[0]);
        vstd::seq_lib::to_multiset_contains(b, b[0]);
        assert(a.contains(a[0]));
        assert(b.contains(b[0]));
        let j = choose|j: int| 0 <= j < b.len() && b[j] == a[0];
        let i = choose|i: int| 0 <= i < a.len() && a[i] == b[0];
        if i != 0 && j != 0 {
            assert(!names_lt(b[j].0, b[0].0));
            assert(b[j].0 != b[0].0);
            lemma_names_lt_total(b[j].0, b[0].0);
            assert(!names_lt(a[i].0, a[0].0));
            assert(a[i].0 != a[0].0);
            lemma_names_lt_total(a[i].0, a[0].0);
            lemma_names_lt_asymmetric(a[0].0, b[0].0);
        }
        assert(a[0] == b[0]);
        let ra = a.remove(0);
        let rb = b.remove(0);
        vstd::seq_lib::to_multiset_remove(a, 0);
        vstd::seq_lib::to_multiset_remove(b, 0);
        assert(path_sorted(ra)) by {
            assert forall|x: int, y: int| 0 <= x < y < ra.len() implies !names_lt(#[trigger] ra[y].0, #[trigger] ra[x].0) by {
                assert(ra[x] == a[x + 1] && ra[y] == a[y + 1]);
            }
        }
        assert(path_sorted(rb)) by {
            assert forall|x: int, y: int| 0 <= x < y < rb.len() implies !names_lt(#[trigger] rb[y].0, #[trigger] rb[x].0) by {
                assert(rb[x] == b[x + 1] && rb[y] == b[y + 1]);
            }
        }
        assert(distinct_paths(ra)) by {
            assert forall|x: int, y: int| 0 <= x < ra.len() && 0 <= y < ra.len() && x != y implies #[trigger] ra[x].0
                != #[trigger] ra[y].0 by {
                assert(ra[x] == a[x + 1] && ra[y] == a[y + 1]);
            }
        }
        assert(distinct_paths(rb)) by {
            assert forall|x: int, y: int| 0 <= x < rb.len() && 0 <= y < rb.len() && x != y implies #[trigger] rb[x].0
                != #[trigger] rb[y].0 by {
                assert(rb[x] == b[x + 1] && rb[y] == b[y + 1]);
            }
        }
        lemma_sorted_unique(ra, rb);
        assert forall|k: int| 0 <= k < a.len() implies a[k] == b[k] by {
            if k > 0 {
                assert(a[k] == ra[k - 1] && b[k] == rb[k - 1]);
            }
        }
        assert(a =~= b);
    }
}

/// The fingerprint does not depend on the order in which the directory is
/// listed: two listings of the same files, each path listed once, give the
/// same fingerprint.
pub proof fn law_fingerprint_ignores_listing_order(root: Seq<char>, a: Seq<AssetFile>, b: Seq<AssetFile>)
    requires
        distinct_paths(a.map_values(|f: AssetFile| file_view(f))),
        distinct_paths(b.map_values(|f: AssetFile| file_view(f))),
        a.map_values(|f: AssetFile| file_view(f)).to_multiset() == b.map_values(|f: AssetFile| file_view(f)).to_multiset(),
    ensures
        spec_fingerprint(root, a) == spec_fingerprint(root, b),
{
    let va = a.map_values(|f: AssetFile| file_view(f));
    let vb = b.map_values(|f: AssetFile| file_view(f));
    lemma_sorted_files(va);
    lemma_sorted_files(vb);
    lemma_sorted_unique(sorted_files(va), sorted_files(vb));
}

/// Hexadecimal text has two digits per byte.
pub proof fn lemma_hex_len(b: Seq<u8>)
    ensures
        hex_of(b).len() == 2 * b.len(),
    decreases b.len(),
{
    if b.len() > 0 {
        lemma_hex_len(b.drop_last());
    }
}

/// Whether text `a` sorts strictly before text `b`.
fn text_less(a: &[char], b: &[char]) -> (r: bool)
    ensures
        r == text_lt(a@, b@),
{
    let mut i: usize = 0;
    assert(a@.skip(0) =~= a@);
    assert(b@.skip(0) =~= b@);
    while i < a.len() && i < b.len()
        invariant
            i <= a@.len(),
            i <= b@.len(),
            text_lt(a@, b@) == text_lt(a@.skip(i as int), b@.skip(i as int)),
        decreases a@.len() - i,
    {
        assert(a@.skip(i as int)[0] == a@[i as int]);
        assert(b@.skip(i as int)[0] == b@[i as int]);
        if a[i] != b[i] {
            return a[i] < b[i];
        }
        assert(a@.skip(i as int).skip(1) =~= a@.skip(i + 1));
        assert(b@.skip(i as int).skip(1) =~= b@.skip(i + 1));
        i = i + 1;
    }
    i == a.len() && i < b.len()
}

/// Whether two texts are equal.
fn text_equal(a: &[char], b: &[char]) -> (r: bool)
    ensures
        r == (a@ == b@),
{
    if a.len() != b.len() {
        return false;
    }
    let mut i: usize = 0;
    while i < a.len()
        invariant
            i <= a@.len(),
            a@.len() == b@.len(),
            a@.take(i as int) == b@.take(i as int),
        decreases a@.len() - i,
    {
        if a[i] != b[i] {
            assert(a@[i as int] != b@[i as int]);
            return false;
        }
        assert(a@.take(i + 1) =~= a@.take(i as int).push(a@[i as int]));
        assert(b@.take(i + 1) =~= b@.take(i as int).push(b@[i as int]));
        i = i + 1;
    }
    assert(a@.take(i as int) =~= a@);
    assert(b@.take(i as int) =~= b@);
    true
}

/// Whether the path with names `a` sorts strictly before the one with
/// names `b`.
fn names_less(a: &Vec<String>, b: &Vec<String>) -> (r: bool)
    ensures
        r == names_lt(a@.map_values(|n: String| n@), b@.map_values(|n: String| n@)),
{
    let ghost av = a@.map_values(|n: String| n@);
    let ghost bv = b@.map_values(|n: String| n@);
    let mut i: usize = 0;
    assert(av.skip(0) =~= av);
    assert(bv.skip(0) =~= bv);
    while i < a.len() && i < b.len()
        invariant
            i <= a@.len(),
            i <= b@.len(),
            av == a@.map_values(|n: String| n@),
            bv == b@.map_values(|n: String| n@),
            names_lt(av, bv) == names_lt(av.skip(i as int), bv.skip(i as int)),
        decreases a@.len() - i,
    {
        assert(av.skip(i as int)[0] == a@[i as int]@);
        assert(bv.skip(i as int)[0] == b@[i as int]@);
        let x = chars_of(a[i].as_str());
        let y = chars_of(b[i].as_str());
        if !text_equal(x.as_slice(), y.as_slice()) {
            return text_less(x.as_slice(), y.as_slice());
        }
        assert(av.skip(i as int).skip(1) =~= av.skip(i + 1));
        assert(bv.skip(i as int).skip(1) =~= bv.skip(i + 1));
        i = i + 1;
    }
    i == a.len() && i < b.len()
}

/// Where a file with `names` goes in the sorted list `sorted`.
fn find_position(sorted: &Vec<AssetFile>, names: &Vec<String>) -> (j: usize)
    ensures
        j == insert_position(sorted@.map_values(|f: AssetFile| file_view(f)), names@.map_values(|n: String| n@)),
        j <= sorted@.len(),
{
    let ghost sv = sorted@.map_values(|f: AssetFile| file_view(f));
    let ghost x = names@.map_values(|n: String| n@);
    let mut j: usize = 0;
    assert(sv.skip(0) =~= sv);
    while j < sorted.len()
        invariant
            j <= sorted@.len(),
            sv == sorted@.map_values(|f: AssetFile| file_view(f)),
            x == names@.map_values(|n: String| n@),
            insert_position(sv, x) == j + insert_position(sv.skip(j as int), x),
        decreases sorted@.len() - j,
    {
        assert(sv.skip(j as int)[0] == file_view(sorted@[j as int]));
        if names_less(names, &sorted[j].names) {
            return j;
        }
        assert(sv.skip(j as int).skip(1) =~= sv.skip(j + 1));
        j = j + 1;
    }
    assert(sv.skip(j as int).len() == 0);
    j
}

/// Sorts asset files by path, equal paths keeping their order.
pub fn sort_asset_files(files: Vec<AssetFile>) -> (r: Vec<AssetFile>)
    ensures
        r@.map_values(|f: AssetFile| file_view(f)) == sorted_files(files@.map_values(|f: AssetFile| file_view(f))),
{
    let ghost all = files@.map_values(|f: AssetFile| file_view(f));
    let mut rest = files;
    let mut out: Vec<AssetFile> = Vec::new();
    let ghost mut done: nat = 0;
    assert(all.take(0) =~= Seq::<(Seq<Seq<char>>, Seq<u8>)>::empty());
    while rest.len() > 0
        invariant
            done <= all.len(),
            rest@.map_values(|f: AssetFile| file_view(f)) == all.skip(done as int),
            out@.map_values(|f: AssetFile| file_view(f)) == sorted_files(all.take(done as int)),
        decreases rest@.len(),
    {
        let ghost before_rest = rest@;
        assert(before_rest.map_values(|g: AssetFile| file_view(g)).len() == before_rest.len());
        assert(done < all.len());
        let f = rest.remove(0);
        assert(file_view(f) == all[done as int]) by {
            assert(before_rest.map_values(|g: AssetFile| file_view(g))[0] == file_view(before_rest[0]));
            assert(all.skip(done as int)[0] == all[done as int]);
        }
        assert(rest@.map_values(|g: AssetFile| file_view(g)) =~= all.skip(done + 1int)) by {
            assert(rest@ =~= before_rest.skip(1));
            assert(before_rest.skip(1).map_values(|g: AssetFile| file_view(g))
                =~= before_rest.map_values(|g: AssetFile| file_view(g)).skip(1));
            assert(all.skip(done as int).skip(1) =~= all.skip(done + 1int));
        }
        let j = find_position(&out, &f.names);
        let ghost before = out@;
        out.insert(j, f);
        proof {
            let t = all.take(done + 1int);
            assert(t.drop_last() =~= all.take(done as int));
            assert(t.last() == all[done as int]);
            assert(out@.map_values(|g: AssetFile| file_view(g)) =~= before.map_values(|g: AssetFile| file_view(g)).insert(
                j as int,
                file_view(f),
            ));
            done = done + 1;
        }
    }
    assert(all.take(done as int) =~= all);
    out
}

/// The path of an asset under `root`.
fn asset_path_of(root: &str, names: &Vec<String>) -> (r: String)
    ensures
        r@ == asset_path(root@, names@.map_values(|n: String| n@)),
{
    let mut parts: Vec<Vec<char>> = Vec::new();
    let mut i: usize = 0;
    while i < names.len()
        invariant
            i <= names@.len(),
            parts@.map_values(|p: Vec<char>| p@) == names@.map_values(|n: String| n@).take(i as int),
        decreases names@.len() - i,
    {
        let ghost before = parts@;
        let c = chars_of(names[i].as_str());
        parts.push(c);
        assert(parts@.map_values(|p: Vec<char>| p@) =~= before.map_values(|p: Vec<char>| p@).push(names@[i as int]@));
        i = i + 1;
        assert(parts@.map_values(|p: Vec<char>| p@) =~= names@.map_values(|n: String| n@).take(i as int));
    }
    assert(names@.map_values(|n: String| n@).take(i as int) =~= names@.map_values(|n: String| n@));
    let joined = join_chars(&parts, '/');
    let mut out = String::from_str(root);
    let r = chars_of(root);
    proof {
        reveal_strlit("/");
        assert(seq!['/'] =~= "/"@);
    }
    if !(r.len() == 0 || ends_with_lit(r.as_slice(), "/")) {
        out.append("/");
    }
    let tail = string_from(joined.as_slice());
    out.append(tail.as_str());
    out
}

/// The bytes that the fingerprint digests, for files already in order.
fn fingerprint_bytes(root: &str, sorted: &Vec<AssetFile>) -> (r: Vec<u8>)
    ensures
        r@ == fingerprint_data(root@, sorted@.map_values(|f: AssetFile| file_view(f))),
{
    let ghost sv = sorted@.map_values(|f: AssetFile| file_view(f));
    let mut data: Vec<u8> = Vec::new();
    let mut i: usize = 0;
    while i < sorted.len()
        invariant
            i <= sorted@.len(),
            sv == sorted@.map_values(|f: AssetFile| file_view(f)),
            data@ == fingerprint_data(root@, sv.take(i as int)),
        decreases sorted@.len() - i,
    {
        let ghost before = data@;
        let path = asset_path_of(root, &sorted[i].names);
        let bytes = path.as_str().as_bytes();
        let mut k: usize = 0;
        while k < bytes.len()
            invariant
                k <= bytes@.len(),
                data@ == before + bytes@.take(k as int),
            decreases bytes@.len() - k,
        {
            data.push(bytes[k]);
            k = k + 1;
            assert(data@ =~= before + bytes@.take(k as int));
        }
        assert(bytes@.take(k as int) =~= bytes@);
        let ghost middle = data@;
        let contents = &sorted[i].contents;
        let mut m: usize = 0;
        while m < contents.len()
            invariant
                m <= contents@.len(),
                data@ == middle + contents@.take(m as int),
            decreases contents@.len() - m,
        {
            data.push(contents[m]);
            m = m + 1;
            assert(data@ =~= middle + contents@.take(m as int));
        }
        assert(contents@.take(m as int) =~= contents@);
        proof {
            let t = sv.take(i + 1);
            assert(t.drop_last() =~= sv.take(i as int));
            assert(t.last() == file_view(sorted@[i as int]));
        }
        i = i + 1;
    }
    assert(sv.take(i as int) =~= sv);
    data
}

/// The fingerprint of the asset files found under `root`.
pub fn fingerprint(root: &str, files: Vec<AssetFile>) -> (r: String)
    ensures
        r@ == spec_fingerprint(root@, files@),
        r@.len() == 12,
        forall|i: int| 0 <= i < 12 ==> is_hex_digit(#[trigger] r@[i]),
{
    let sorted = sort_asset_files(files);
    let data = fingerprint_bytes(root, &sorted);
    let digest = sha256(data.as_slice());
    let hex = hex_encode(digest.as_slice());
    let digits = chars_of(hex.as_str());
    proof {
        lemma_hex_len(digest@);
        lemma_hex_digits(digest@);
    }
    let mut first: Vec<char> = Vec::new();
    let mut i: usize = 0;
    while i < 12
        invariant
            i <= 12,
            digits@.len() == 64,
            first@ == digits@.take(i as int),
        decreases 12 - i,
    {
        first.push(digits[i]);
        i = i + 1;
        assert(first@ =~= digits@.take(i as int));
    }
    string_from(first.as_slice())
}

/// The version that asset URLs carry: the fingerprint of the asset files,
/// or `fallback` (the package version) when they could not be read.
pub fn asset_version(root: &str, files: Option<Vec<AssetFile>>, fallback: &str) -> (r: String)
    ensures
        r@ == match files {
            Some(f) => spec_fingerprint(root@, f@),
            None => fallback@,
        },
        files is Some ==> r@.len() == 12 && forall|i: int| 0 <= i < 12 ==> is_hex_digit(#[trigger] r@[i]),
{
    match files {
        Some(f) => fingerprint(root, f),
        None => String::from_str(fallback),
    }
}

} // verus!
