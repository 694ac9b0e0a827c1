//! Character-level building blocks shared by the validators: conversions
//! between `str` and character vectors, prefix and substring tests, trimming,
//! splitting and joining. Every operation is stated over `Seq<char>`.
use vstd::prelude::*;

verus! {

/// `String::push` appends one character.
pub assume_specification[ String::push ](s: &mut String, ch: char)
    ensures
        final(s)@ == old(s)@.push(ch),
;

/// Whether `c` carries the Unicode `White_Space` property, as
/// `char::is_whitespace` decides: tab to carriage return, space, U+0085,
/// U+00A0, U+1680, U+2000 to U+200A, U+2028, U+2029, U+202F, U+205F and
/// U+3000.
pub open spec fn spec_is_whitespace(c: char) -> bool {
    let n = c as u32;
    (9 <= n <= 13) || n == 32 || n == 0x85 || n == 0xA0 || n == 0x1680 || (0x2000 <= n <= 0x200A)
        || n == 0x2028 || n == 0x2029 || n == 0x202F || n == 0x205F || n == 0x3000
}

/// Whether `c` is Unicode white space.
pub fn is_whitespace(c: char) -> (r: bool)
    ensures
        r == spec_is_whitespace(c),
{
    let n = c as u32;
    (9 <= n && n <= 13) || n == 32 || n == 0x85 || n == 0xA0 || n == 0x1680 || (0x2000 <= n && n <= 0x200A)
        || n == 0x2028 || n == 0x2029 || n == 0x202F || n == 0x205F || n == 0x3000
}

/// `std::str::from_utf8`: the text of valid UTF-8 bytes.
#[verifier::external_body]
pub(crate) fn utf8_text(bytes: &[u8]) -> (r: Option<String>)
    ensures
        r is Some <==> vstd::utf8::valid_utf8(bytes@),
        r matches Some(t) ==> t@ == vstd::utf8::decode_utf8(bytes@),
{
    match std::str::from_utf8(bytes) {
        Ok(t) => Some(t.to_owned()),
        Err(_) => None,
    }
}

/// Whether `c` is alphabetic or numeric in Unicode, as `char::is_alphanumeric` decides.
pub uninterp spec fn spec_is_alphanumeric(c: char) -> bool;

/// `char::is_alphanumeric`: the Unicode `Alphabetic` or `Numeric` property of `c`.
#[verifier::external_body]
pub fn is_alphanumeric(c: char) -> (r: bool)
    ensures
        r == spec_is_alphanumeric(c),
{
    c.is_alphanumeric()
}

/// The lowercase form of `s` under Unicode case mapping, as `str::to_lowercase` produces it.
pub uninterp spec fn spec_to_lowercase(s: Seq<char>) -> Seq<char>;

/// `str::to_lowercase`: the Unicode lowercase mapping of `s`.
#[verifier::external_body]
pub fn to_lowercase(s: &str) -> (r: String)
    ensures
        r@ == spec_to_lowercase(s@),
{
    s.to_lowercase()
}

/// Whether `c` is in the Unicode general category `Cc` (control codes),
/// which `char::is_control` tests: U+0000 to U+001F and U+007F to U+009F.
pub open spec fn is_control_char(c: char) -> bool {
    (c as u32) <= 0x1f || (0x7f <= (c as u32) && (c as u32) <= 0x9f)
}

/// Whether `c` is a control code.
pub fn is_control(c: char) -> (r: bool)
    ensures
        r == is_control_char(c),
{
    let v = c as u32;
    v <= 0x1f || (0x7f <= v && v <= 0x9f)
}

/// ASCII letters and digits.
pub open spec fn is_ascii_alnum(c: char) -> bool {
    ('a' <= c && c <= 'z') || ('A' <= c && c <= 'Z') || ('0' <= c && c <= '9')
}

/// Whether `c` is an ASCII letter or digit.
pub fn ascii_alnum(c: char) -> (r: bool)
    ensures
        r == is_ascii_alnum(c),
{
    ('a' <= c && c <= 'z') || ('A' <= c && c <= 'Z') || ('0' <= c && c <= '9')
}

/// `s` with every `from` replaced by `to`.
pub open spec fn replace_char(s: Seq<char>, from: char, to: char) -> Seq<char> {
    s.map_values(|c: char| if c == from { to } else { c })
}

/// The characters of `a` with every `from` replaced by `to`.
pub fn replace_chars(a: &[char], from: char, to: char) -> (out: Vec<char>)
    ensures
        out@ == replace_char(a@, from, to),
{
    let mut out: Vec<char> = Vec::new();
    let mut i: usize = 0;
    while i < a.len()
        invariant
            i <= a@.len(),
            out@ == replace_char(a@.take(i as int), from, to),
        decreases a@.len() - i,
    {
        let c = a[i];
        out.push(if c == from { to } else { c });
        i = i + 1;
        assert(out@ =~= replace_char(a@.take(i as int), from, to));
    }
    assert(a@.take(i as int) =~= a@);
    out
}

/// `s` begins with `p`.
pub open spec fn starts_with<T>(s: Seq<T>, p: Seq<T>) -> bool {
    p.len() <= s.len() && s.take(p.len() as int) == p
}

/// `s` ends with `p`.
pub open spec fn ends_with<T>(s: Seq<T>, p: Seq<T>) -> bool {
    p.len() <= s.len() && s.skip(s.len() - p.len()) == p
}

/// `p` occurs somewhere in `s` as a contiguous run.
pub open spec fn contains_run<T>(s: Seq<T>, p: Seq<T>) -> bool {
    exists|i: int| 0 <= i && i + p.len() <= s.len() && #[trigger] s.subrange(i, i + p.len()) == p
}

/// `s` with its leading whitespace removed.
pub open spec fn trim_start(s: Seq<char>) -> Seq<char>
    decreases s.len(),
{
    if s.len() > 0 && spec_is_whitespace(s[0]) {
        trim_start(s.drop_first())
    } else {
        s
    }
}

/// `s` with its trailing whitespace removed.
pub open spec fn trim_end(s: Seq<char>) -> Seq<char>
    decreases s.len(),
{
    if s.len() > 0 && spec_is_whitespace(s.last()) {
        trim_end(s.drop_last())
    } else {
        s
    }
}

/// `s` with leading and trailing whitespace removed, as `str::trim` does.
pub open spec fn trim(s: Seq<char>) -> Seq<char> {
    trim_end(trim_start(s))
}

/// The pieces of `s` between occurrences of `sep`, as `str::split(sep)` yields them.
pub open spec fn split<T>(s: Seq<T>, sep: T) -> Seq<Seq<T>>
    decreases s.len(),
{
    if s.len() == 0 {
        seq![Seq::empty()]
    } else {
        let init = split(s.drop_last(), sep);
        if s.last() == sep {
            init.push(Seq::empty())
        } else {
            init.update(init.len() - 1, init.last().push(s.last()))
        }
    }
}

/// Splitting always yields at least one piece.
pub proof fn lemma_split_nonempty<T>(s: Seq<T>, sep: T)
    ensures
        split(s, sep).len() >= 1,
    decreases s.len(),
{
    if s.len() > 0 {
        lemma_split_nonempty(s.drop_last(), sep);
    }
}

/// No piece of a split holds the separator, and every character of a piece
/// comes from the split text.
pub proof fn lemma_split_piece_chars<T>(s: Seq<T>, sep: T)
    ensures
        forall|i: int, j: int|
            0 <= i < split(s, sep).len() && 0 <= j < split(s, sep)[i].len() ==> #[trigger] split(s, sep)[i][j]
                != sep && s.contains(split(s, sep)[i][j]),
    decreases s.len(),
{
    if s.len() > 0 {
        let init = split(s.drop_last(), sep);
        lemma_split_piece_chars(s.drop_last(), sep);
        lemma_split_nonempty(s.drop_last(), sep);
        assert forall|i: int, j: int|
            0 <= i < split(s, sep).len() && 0 <= j < split(s, sep)[i].len() implies #[trigger] split(s, sep)[i][j]
                != sep && s.contains(split(s, sep)[i][j]) by {
            let x = split(s, sep)[i][j];
            if s.last() == sep {
                assert(split(s, sep) == init.push(Seq::empty()));
                assert(x == init[i][j]);
                assert(s.drop_last().contains(x));
                let k = choose|k: int| 0 <= k < s.drop_last().len() && s.drop_last()[k] == x;
                assert(s[k] == x);
            } else if i == init.len() - 1 && j == init.last().len() {
                assert(x == s.last());
                assert(s[s.len() - 1] == x);
            } else {
                assert(x == init[i][j]);
                assert(s.drop_last().contains(x));
                let k = choose|k: int| 0 <= k < s.drop_last().len() && s.drop_last()[k] == x;
                assert(s[k] == x);
            }
        }
    }
}

/// Text without the separator splits into itself alone.
pub proof fn lemma_split_without_sep<T>(s: Seq<T>, sep: T)
    requires
        !s.contains(sep),
    ensures
        split(s, sep) == seq![s],
    decreases s.len(),
{
    if s.len() > 0 {
        assert(!s.drop_last().contains(sep)) by {
            if s.drop_last().contains(sep) {
                let k = choose|k: int| 0 <= k < s.drop_last().len() && s.drop_last()[k] == sep;
                assert(s[k] == sep);
            }
        }
        lemma_split_without_sep(s.drop_last(), sep);
        assert(s.last() != sep) by {
            assert(s[s.len() - 1] == s.last());
        }
        assert(s.drop_last().push(s.last()) =~= s);
        assert(split(s, sep) =~= seq![s]);
    } else {
        assert(s =~= Seq::<T>::empty());
    }
}

/// Splitting text joined at a separator splits each side.
pub proof fn lemma_split_concat<T>(a: Seq<T>, sep: T, b: Seq<T>)
    ensures
        split(a + seq![sep] + b, sep) == split(a, sep) + split(b, sep),
    decreases b.len(),
{
    let s = a + seq![sep] + b;
    lemma_split_nonempty(a, sep);
    if b.len() == 0 {
        assert(s.drop_last() =~= a);
        assert(split(b, sep) =~= seq![Seq::<T>::empty()]);
        assert(split(s, sep) =~= split(a, sep) + split(b, sep));
    } else {
        lemma_split_concat(a, sep, b.drop_last());
        lemma_split_nonempty(b.drop_last(), sep);
        assert(s.drop_last() =~= a + seq![sep] + b.drop_last());
        assert(s.last() == b.last());
        let left = split(a, sep);
        let right = split(b.drop_last(), sep);
        if b.last() == sep {
            assert(split(s, sep) =~= (left + right).push(Seq::empty()));
            assert((left + right).push(Seq::empty()) =~= left + right.push(Seq::empty()));
        } else {
            let joined = left + right;
            assert(joined.last() == right.last());
            assert(joined.update(joined.len() - 1, joined.last().push(b.last())) =~= left + right.update(
                right.len() - 1,
                right.last().push(b.last()),
            ));
        }
    }
}

/// The first piece of a split is the text before the first separator.
pub proof fn lemma_split_first<T>(s: Seq<T>, sep: T, k: int)
    requires
        0 <= k < s.len(),
        s[k] == sep,
        !s.take(k).contains(sep),
    ensures
        split(s, sep)[0] == s.take(k),
        split(s, sep).len() >= 2,
    decreases s.len(),
{
    if s.len() == k + 1 {
        assert(s.drop_last() =~= s.take(k));
        lemma_split_without_sep(s.take(k), sep);
    } else {
        assert(s.drop_last().take(k) =~= s.take(k));
        lemma_split_first(s.drop_last(), sep, k);
    }
}

/// `split_once` finds the separator that ends a separator-free prefix.
pub proof fn lemma_split_once_at<T>(p: Seq<T>, sep: T, v: Seq<T>)
    requires
        !p.contains(sep),
    ensures
        split_once(p + seq![sep] + v, sep) == Some((p, v)),
    decreases p.len(),
{
    let s = p + seq![sep] + v;
    if p.len() == 0 {
        assert(s[0] == sep);
        assert(s.drop_first() =~= v);
    } else {
        assert(s[0] == p[0]);
        assert(p[0] != sep) by {
            if p[0] == sep {
                assert(p.contains(sep));
            }
        }
        assert(!p.drop_first().contains(sep)) by {
            if p.drop_first().contains(sep) {
                let k = choose|k: int| 0 <= k < p.drop_first().len() && p.drop_first()[k] == sep;
                assert(p[k + 1] == sep);
            }
        }
        lemma_split_once_at(p.drop_first(), sep, v);
        assert(s.drop_first() =~= p.drop_first() + seq![sep] + v);
        assert(seq![p[0]] + p.drop_first() =~= p);
    }
}

/// Trimming keeps text that neither starts nor ends with white space.
pub proof fn lemma_trim_unchanged(s: Seq<char>)
    requires
        s.len() == 0 || (!spec_is_whitespace(s[0]) && !spec_is_whitespace(s.last())),
    ensures
        trim(s) == s,
{
}

/// Trimmed text neither starts nor ends with white space, and its
/// characters come from the untrimmed text.
pub proof fn lemma_trim_shape(s: Seq<char>)
    ensures
        trim(s).len() == 0 || (!spec_is_whitespace(trim(s)[0]) && !spec_is_whitespace(trim(s).last())),
        forall|j: int| 0 <= j < trim(s).len() ==> s.contains(#[trigger] trim(s)[j]),
{
    lemma_trim_start_shape(s);
    lemma_trim_end_shape(trim_start(s));
    let t = trim_start(s);
    let u = trim_end(t);
    if u.len() > 0 {
        assert(u[0] == t[0]);
    }
    assert forall|j: int| 0 <= j < u.len() implies s.contains(#[trigger] u[j]) by {
        assert(u[j] == t[j]);
        assert(t.contains(t[j]));
    }
}

/// Trimming twice is trimming once.
pub proof fn lemma_trim_idempotent(s: Seq<char>)
    ensures
        trim(trim(s)) == trim(s),
{
    lemma_trim_shape(s);
    lemma_trim_unchanged(trim(s));
}

proof fn lemma_trim_start_shape(s: Seq<char>)
    ensures
        trim_start(s).len() == 0 || !spec_is_whitespace(trim_start(s)[0]),
        forall|j: int| 0 <= j < trim_start(s).len() ==> s.contains(#[trigger] trim_start(s)[j]),
    decreases s.len(),
{
    if s.len() > 0 && spec_is_whitespace(s[0]) {
        lemma_trim_start_shape(s.drop_first());
        assert forall|j: int| 0 <= j < trim_start(s).len() implies s.contains(#[trigger] trim_start(s)[j]) by {
            let x = trim_start(s)[j];
            assert(s.drop_first().contains(x));
            let k = choose|k: int| 0 <= k < s.drop_first().len() && s.drop_first()[k] == x;
            assert(s[k + 1] == x);
        }
    } else {
        assert forall|j: int| 0 <= j < trim_start(s).len() implies s.contains(#[trigger] trim_start(s)[j]) by {
            assert(s[j] == trim_start(s)[j]);
        }
    }
}

proof fn lemma_trim_end_shape(s: Seq<char>)
    ensures
        trim_end(s).len() == 0 || !spec_is_whitespace(trim_end(s).last()),
        trim_end(s).len() <= s.len(),
        trim_end(s) == s.take(trim_end(s).len() as int),
    decreases s.len(),
{
    if s.len() > 0 && spec_is_whitespace(s.last()) {
        lemma_trim_end_shape(s.drop_last());
        assert(s.drop_last().take(trim_end(s).len() as int) =~= s.take(trim_end(s).len() as int));
    } else {
        assert(s.take(s.len() as int) =~= s);
    }
}

/// The pieces joined back together with `sep` between neighbours.
pub open spec fn join<T>(parts: Seq<Seq<T>>, sep: Seq<T>) -> Seq<T>
    decreases parts.len(),
{
    if parts.len() == 0 {
        Seq::empty()
    } else if parts.len() == 1 {
        parts[0]
    } else {
        join(parts.drop_last(), sep) + sep + parts.last()
    }
}

/// The number of elements of `s` that satisfy `p`.
pub open spec fn count_where<T>(s: Seq<T>, p: spec_fn(T) -> bool) -> nat
    decreases s.len(),
{
    if s.len() == 0 {
        0
    } else {
        count_where(s.drop_last(), p) + if p(s.last()) { 1nat } else { 0nat }
    }
}

/// The number of bytes of the UTF-8 encoding of `s`, as `str::len` reports it.
pub open spec fn utf8_len(s: Seq<char>) -> usize {
    vstd::utf8::encode_utf8(s).len() as usize
}

/// The characters of `s`, in order.
pub fn chars_of(s: &str) -> (out: Vec<char>)
    ensures
        out@ == s@,
{
    let mut out: Vec<char> = Vec::new();
    for c in it: s.chars()
        invariant
            out@ == it.seq().take(it.index() as int),
            it.seq() == s@,
    {
        out.push(c);
    }
    out
}

/// A `String` holding exactly the characters of `v`.
pub fn string_from(v: &[char]) -> (out: String)
    ensures
        out@ == v@,
{
    let mut out = String::new();
    let mut i: usize = 0;
    while i < v.len()
        invariant
            i <= v@.len(),
            out@ == v@.take(i as int),
        decreases v@.len() - i,
    {
        out.push(v[i]);
        i = i + 1;
        assert(out@ =~= v@.take(i as int));
    }
    assert(v@.take(i as int) =~= v@);
    out
}

/// The number of bytes that `v` takes when encoded as UTF-8.
pub fn utf8_len_of(v: &[char]) -> (n: usize)
    ensures
        n == utf8_len(v@),
{
    let s = string_from(v);
    s.as_str().len()
}

/// Whether `a` and `b` hold the same characters in the same order.
pub fn same_chars(a: &[char], b: &[char]) -> (r: bool)
    ensures
        r == (a@ == b@),
{
    if a.len() != b.len() {
        return false;
    }
    let mut i: usize = 0;
    while i < a.len()
        invariant
            a@.len() == b@.len(),
            i <= a@.len(),
            forall|k: int| 0 <= k < i ==> a@[k] == b@[k],
        decreases a@.len() - i,
    {
        if a[i] != b[i] {
            return false;
        }
        i = i + 1;
    }
    assert(a@ =~= b@);
    true
}

/// Whether `a` spells exactly `lit`.
pub fn eq_lit(a: &[char], lit: &str) -> (r: bool)
    ensures
        r == (a@ == lit@),
{
    let b = chars_of(lit);
    same_chars(a, b.as_slice())
}

/// Whether `a` begins with `lit`.
pub fn starts_with_lit(a: &[char], lit: &str) -> (r: bool)
    ensures
        r == starts_with(a@, lit@),
{
    let b = chars_of(lit);
    if b.len() > a.len() {
        return false;
    }
    let mut i: usize = 0;
    while i < b.len()
        invariant
            b@ == lit@,
            b@.len() <= a@.len(),
            i <= b@.len(),
            forall|k: int| 0 <= k < i ==> a@[k] == b@[k],
        decreases b@.len() - i,
    {
        if a[i] != b[i] {
            assert(a@.take(b@.len() as int)[i as int] != b@[i as int]);
            return false;
        }
        i = i + 1;
    }
    assert(a@.take(b@.len() as int) =~= b@);
    true
}

/// Whether `a` ends with `lit`.
pub fn ends_with_lit(a: &[char], lit: &str) -> (r: bool)
    ensures
        r == ends_with(a@, lit@),
{
    let b = chars_of(lit);
    if b.len() > a.len() {
        return false;
    }
    let alen = a.len();
    let off = alen - b.len();
    let mut i: usize = 0;
    while i < b.len()
        invariant
            b@ == lit@,
            off + b@.len() == a@.len(),
            alen == a@.len(),
            i <= b@.len(),
            forall|k: int| 0 <= k < i ==> a@[off + k] == b@[k],
        decreases b@.len() - i,
    {
        if a[off + i] != b[i] {
            assert(a@.skip(off as int)[i as int] != b@[i as int]);
            return false;
        }
        i = i + 1;
    }
    assert(a@.skip(off as int) =~= b@);
    true
}

/// Whether `c` occurs in `a`.
pub fn contains_char(a: &[char], c: char) -> (r: bool)
    ensures
        r == a@.contains(c),
{
    let mut i: usize = 0;
    while i < a.len()
        invariant
            i <= a@.len(),
            forall|k: int| 0 <= k < i ==> a@[k] != c,
        decreases a@.len() - i,
    {
        if a[i] == c {
            assert(a@[i as int] == c);
            return true;
        }
        i = i + 1;
    }
    false
}

/// Whether `lit` occurs in `a` as a contiguous run of characters.
pub fn contains_lit(a: &[char], lit: &str) -> (r: bool)
    ensures
        r == contains_run(a@, lit@),
{
    let b = chars_of(lit);
    if b.len() > a.len() {
        assert forall|i: int| 0 <= i && i + b@.len() <= a@.len() implies #[trigger] a@.subrange(i, i + b@.len()) != b@ by {}
        return false;
    }
    let alen = a.len();
    let last = alen - b.len();
    let mut start: usize = 0;
    while start <= last
        invariant
            b@ == lit@,
            b@.len() <= a@.len(),
            last == a@.len() - b@.len(),
            alen == a@.len(),
            start <= last + 1,
            forall|i: int| 0 <= i < start ==> #[trigger] a@.subrange(i, i + b@.len()) != b@,
        decreases last + 1 - start,
    {
        let mut k: usize = 0;
        let mut matched = true;
        while k < b.len()
            invariant
                start + b@.len() <= a@.len(),
                start <= last,
                alen == a@.len(),
                last == a@.len() - b@.len(),
                k <= b@.len(),
                matched ==> forall|j: int| 0 <= j < k ==> a@[start + j] == b@[j],
                !matched ==> a@.subrange(start as int, start + b@.len()) != b@,
            decreases b@.len() - k,
        {
            if a[start + k] != b[k] {
                assert(a@.subrange(start as int, start + b@.len())[k as int] != b@[k as int]);
                matched = false;
            }
            k = k + 1;
        }
        if matched {
            assert(a@.subrange(start as int, start + b@.len()) =~= b@);
            return true;
        }
        if start == last {
            assert forall|i: int| 0 <= i && i + b@.len() <= a@.len() implies #[trigger] a@.subrange(i, i + b@.len()) != b@ by {}
            return false;
        }
        start = start + 1;
    }
    assert forall|i: int| 0 <= i && i + b@.len() <= a@.len() implies #[trigger] a@.subrange(i, i + b@.len()) != b@ by {}
    false
}

/// `a` without leading and trailing whitespace.
pub fn trim_chars(a: &[char]) -> (out: Vec<char>)
    ensures
        out@ == trim(a@),
{
    let mut i: usize = 0;
    assert(a@.skip(0) =~= a@);
    while i < a.len() && is_whitespace(a[i])
        invariant
            i <= a@.len(),
            trim_start(a@) == trim_start(a@.skip(i as int)),
        decreases a@.len() - i,
    {
        assert(a@.skip(i as int).drop_first() =~= a@.skip(i + 1));
        i = i + 1;
    }
    let ghost rest = a@.skip(i as int);
    assert(trim_start(a@) == rest);
    let mut j: usize = a.len();
    while j > i && is_whitespace(a[j - 1])
        invariant
            i <= j <= a@.len(),
            rest == a@.skip(i as int),
            trim_end(rest) == trim_end(a@.subrange(i as int, j as int)),
        decreases j,
    {
        assert(a@.subrange(i as int, j as int).drop_last() =~= a@.subrange(i as int, j - 1));
        j = j - 1;
    }
    assert(trim_end(a@.subrange(i as int, j as int)) == a@.subrange(i as int, j as int));
    let mut out: Vec<char> = Vec::new();
    let mut k: usize = i;
    while k < j
        invariant
            i <= k <= j <= a@.len(),
            out@ == a@.subrange(i as int, k as int),
        decreases j - k,
    {
        out.push(a[k]);
        k = k + 1;
        assert(out@ =~= a@.subrange(i as int, k as int));
    }
    out
}

/// Whether the bytes `b` begin with the bytes `p`.
pub fn starts_with_bytes(b: &[u8], p: &[u8]) -> (r: bool)
    ensures
        r == starts_with(b@, p@),
{
    if p.len() > b.len() {
        return false;
    }
    let mut i: usize = 0;
    while i < p.len()
        invariant
            p@.len() <= b@.len(),
            i <= p@.len(),
            forall|k: int| 0 <= k < i ==> b@[k] == p@[k],
        decreases p@.len() - i,
    {
        if b[i] != p[i] {
            assert(b@.take(p@.len() as int)[i as int] != p@[i as int]);
            return false;
        }
        i = i + 1;
    }
    assert(b@.take(p@.len() as int) =~= p@);
    true
}

/// Whether `v` spells one of `options`.
pub fn eq_any(v: &[char], options: &[&str]) -> (r: bool)
    ensures
        r == exists|i: int| 0 <= i < options@.len() && v@ == (#[trigger] options@[i])@,
{
    let mut i: usize = 0;
    while i < options.len()
        invariant
            i <= options@.len(),
            forall|k: int| 0 <= k < i ==> v@ != (#[trigger] options@[k])@,
        decreases options@.len() - i,
    {
        if eq_lit(v, options[i]) {
            return true;
        }
        i = i + 1;
    }
    false
}

/// `c` with ASCII capitals turned into small letters.
pub open spec fn ascii_lower(c: char) -> char {
    if 'A' <= c && c <= 'Z' { ((c as u32) + 32) as char } else { c }
}

/// `s` with ASCII capitals turned into small letters, as `str::to_ascii_lowercase` does.
pub open spec fn ascii_lowercase(s: Seq<char>) -> Seq<char> {
    s.map_values(|c: char| ascii_lower(c))
}

/// The characters of `a` with ASCII capitals turned into small letters.
pub fn to_ascii_lowercase(a: &[char]) -> (out: Vec<char>)
    ensures
        out@ == ascii_lowercase(a@),
{
    let mut out: Vec<char> = Vec::new();
    let mut i: usize = 0;
    while i < a.len()
        invariant
            i <= a@.len(),
            out@ == ascii_lowercase(a@.take(i as int)),
        decreases a@.len() - i,
    {
        let c = a[i];
        let l = if 'A' <= c && c <= 'Z' { (((c as u32) + 32) as u8) as char } else { c };
        out.push(l);
        i = i + 1;
        assert(out@ =~= ascii_lowercase(a@.take(i as int)));
    }
    assert(a@.take(i as int) =~= a@);
    out
}

/// The text before the first `sep` and the text after it, as `str::split_once` gives them.
pub open spec fn split_once<T>(s: Seq<T>, sep: T) -> Option<(Seq<T>, Seq<T>)>
    decreases s.len(),
{
    if s.len() == 0 {
        None
    } else if s[0] == sep {
        Some((Seq::empty(), s.drop_first()))
    } else {
        match split_once(s.drop_first(), sep) {
            Some((a, b)) => Some((seq![s[0]] + a, b)),
            None => None,
        }
    }
}

/// Splits `a` at its first `sep`.
pub fn split_once_chars(a: &[char], sep: char) -> (r: Option<(Vec<char>, Vec<char>)>)
    ensures
        match r {
            Some((x, y)) => split_once(a@, sep) == Some((x@, y@)),
            None => split_once(a@, sep) is None,
        },
{
    let mut i: usize = 0;
    assert(a@.skip(0) =~= a@);
    while i < a.len() && a[i] != sep
        invariant
            i <= a@.len(),
            forall|k: int| 0 <= k < i ==> a@[k] != sep,
            split_once(a@, sep) == match split_once(a@.skip(i as int), sep) {
                Some((x, y)) => Some((a@.take(i as int) + x, y)),
                None => None,
            },
        decreases a@.len() - i,
    {
        assert(a@.skip(i as int).drop_first() =~= a@.skip(i + 1));
        proof {
            match split_once(a@.skip(i + 1), sep) {
                Some((x, y)) => {
                    assert(a@.take(i as int) + (seq![a@[i as int]] + x) =~= a@.take(i + 1) + x);
                },
                None => {},
            }
        }
        i = i + 1;
    }
    if i == a.len() {
        assert(a@.skip(i as int) =~= Seq::<char>::empty());
        return None;
    }
    let mut before: Vec<char> = Vec::new();
    let mut k: usize = 0;
    while k < i
        invariant
            k <= i < a@.len(),
            before@ == a@.take(k as int),
        decreases i - k,
    {
        before.push(a[k]);
        k = k + 1;
        assert(before@ =~= a@.take(k as int));
    }
    let mut after: Vec<char> = Vec::new();
    let mut j: usize = i + 1;
    while j < a.len()
        invariant
            i < j <= a@.len(),
            after@ == a@.subrange(i + 1, j as int),
        decreases a@.len() - j,
    {
        after.push(a[j]);
        j = j + 1;
        assert(after@ =~= a@.subrange(i + 1, j as int));
    }
    assert(a@.skip(i as int).drop_first() =~= a@.subrange(i + 1, a@.len() as int));
    assert(a@.take(i as int) + Seq::<char>::empty() =~= a@.take(i as int));
    Some((before, after))
}

/// The part of `s` after its last `sep` (all of `s` when there is none), as
/// `str::rsplit(sep).next()` gives it.
pub open spec fn after_last<T>(s: Seq<T>, sep: T) -> Seq<T>
    decreases s.len(),
{
    if s.len() == 0 {
        s
    } else if s.last() == sep {
        Seq::empty()
    } else {
        after_last(s.drop_last(), sep).push(s.last())
    }
}

/// The characters of `a` after its last `sep`.
pub fn after_last_chars(a: &[char], sep: char) -> (out: Vec<char>)
    ensures
        out@ == after_last(a@, sep),
{
    let mut out: Vec<char> = Vec::new();
    let mut i: usize = 0;
    while i < a.len()
        invariant
            i <= a@.len(),
            out@ == after_last(a@.take(i as int), sep),
        decreases a@.len() - i,
    {
        assert(a@.take(i + 1).drop_last() =~= a@.take(i as int));
        if a[i] == sep {
            out = Vec::new();
            assert(out@ =~= after_last(a@.take(i + 1), sep));
        } else {
            out.push(a[i]);
        }
        i = i + 1;
    }
    assert(a@.take(i as int) =~= a@);
    out
}

/// The pieces of `a` between occurrences of `sep`.
pub fn split_chars(a: &[char], sep: char) -> (out: Vec<Vec<char>>)
    ensures
        out@.len() == split(a@, sep).len(),
        forall|k: int| 0 <= k < out@.len() ==> #[trigger] out@[k]@ == split(a@, sep)[k],
{
    let mut done: Vec<Vec<char>> = Vec::new();
    let mut cur: Vec<char> = Vec::new();
    let mut i: usize = 0;
    while i < a.len()
        invariant
            i <= a@.len(),
            split(a@.take(i as int), sep).len() == done@.len() + 1,
            forall|k: int| 0 <= k < done@.len() ==> #[trigger] done@[k]@ == split(a@.take(i as int), sep)[k],
            cur@ == split(a@.take(i as int), sep).last(),
        decreases a@.len() - i,
    {
        let ghost prev = split(a@.take(i as int), sep);
        assert(a@.take(i + 1).drop_last() =~= a@.take(i as int));
        if a[i] == sep {
            done.push(cur);
            cur = Vec::new();
        } else {
            cur.push(a[i]);
        }
        i = i + 1;
    }
    assert(a@.take(i as int) =~= a@);
    done.push(cur);
    done
}

/// The pieces joined with `sep` between neighbours.
pub fn join_chars(parts: &Vec<Vec<char>>, sep: char) -> (out: Vec<char>)
    ensures
        out@ == join(parts@.map_values(|p: Vec<char>| p@), seq![sep]),
{
    let ghost views = parts@.map_values(|p: Vec<char>| p@);
    let mut out: Vec<char> = Vec::new();
    let mut i: usize = 0;
    while i < parts.len()
        invariant
            i <= parts@.len(),
            views == parts@.map_values(|p: Vec<char>| p@),
            out@ == join(views.take(i as int), seq![sep]),
        decreases parts@.len() - i,
    {
        assert(views.take(i + 1).drop_last() =~= views.take(i as int));
        if i > 0 {
            out.push(sep);
        }
        let piece = &parts[i];
        let mut k: usize = 0;
        let ghost before = out@;
        while k < piece.len()
            invariant
                k <= piece@.len(),
                out@ == before + piece@.take(k as int),
            decreases piece@.len() - k,
        {
            out.push(piece[k]);
            k = k + 1;
            assert(out@ =~= before + piece@.take(k as int));
        }
        assert(piece@.take(k as int) =~= piece@);
        i = i + 1;
        if i == 1 {
            assert(out@ =~= join(views.take(i as int), seq![sep]));
        }
    }
    assert(views.take(i as int) =~= views);
    out
}

} // verus!
