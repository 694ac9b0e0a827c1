//! Decimal text for unsigned integers, in both directions.
use vstd::prelude::*;

verus! {

/// The ASCII digit for `d`, which is below ten.
pub open spec fn digit_char(d: nat) -> char {
    ((d + 48) as u32) as char
}

/// Whether `c` is an ASCII decimal digit.
pub open spec fn is_digit(c: char) -> bool {
    '0' <= c && c <= '9'
}

/// The value of the ASCII digit `c`.
pub open spec fn digit_value(c: char) -> nat {
    (c as u32 - 48) as nat
}

/// The shortest decimal spelling of `n`, as `u64::to_string` writes it.
pub open spec fn decimal(n: nat) -> Seq<char>
    decreases n,
{
    if n < 10 {
        seq![digit_char(n)]
    } else {
        decimal(n / 10).push(digit_char(n % 10))
    }
}

/// The value that a run of ASCII digits spells.
pub open spec fn digits_value(s: Seq<char>) -> nat
    decreases s.len(),
{
    if s.len() == 0 {
        0
    } else {
        digits_value(s.drop_last()) * 10 + digit_value(s.last())
    }
}

/// Whether `s` is an optional `+` followed by one or more ASCII digits: the
/// text that `u64::from_str` accepts when the value fits.
pub open spec fn is_unsigned_text(s: Seq<char>) -> bool {
    let body = unsigned_body(s);
    body.len() > 0 && forall|i: int| 0 <= i < body.len() ==> is_digit(#[trigger] body[i])
}

/// The value of unsigned text; meaningful when `is_unsigned_text(s)`.
pub open spec fn unsigned_value(s: Seq<char>) -> nat {
    digits_value(unsigned_body(s))
}

/// `s` without one leading `+`.
pub open spec fn unsigned_body(s: Seq<char>) -> Seq<char> {
    if s.len() > 0 && s[0] == '+' { s.drop_first() } else { s }
}

/// What `str::parse::<u64>` returns: the value of unsigned text that fits in
/// 64 bits, and `None` for anything else.
pub open spec fn parse_u64_spec(s: Seq<char>) -> Option<u64> {
    if is_unsigned_text(s) && unsigned_value(s) <= u64::MAX {
        Some(unsigned_value(s) as u64)
    } else {
        None
    }
}

proof fn lemma_digits_value_prefix(s: Seq<char>, i: int)
    requires
        0 <= i < s.len(),
    ensures
        digits_value(s.take(i + 1)) == digits_value(s.take(i)) * 10 + digit_value(s[i]),
{
    assert(s.take(i + 1).drop_last() =~= s.take(i));
}

proof fn lemma_digits_value_grows(s: Seq<char>, i: int)
    requires
        0 <= i <= s.len(),
        forall|k: int| 0 <= k < s.len() ==> is_digit(#[trigger] s[k]),
    ensures
        digits_value(s.take(i)) <= digits_value(s),
    decreases s.len() - i,
{
    if i < s.len() {
        lemma_digits_value_prefix(s, i);
        lemma_digits_value_grows(s, i + 1);
        assert(digits_value(s.take(i)) <= digits_value(s.take(i)) * 10 + digit_value(s[i])) by (nonlinear_arith);
    } else {
        assert(s.take(i) =~= s);
    }
}

/// Parses unsigned decimal text the way `str::parse::<u64>` does.
pub fn parse_u64(s: &[char]) -> (r: Option<u64>)
    ensures
        r == parse_u64_spec(s@),
{
    let mut start: usize = 0;
    if s.len() > 0 && s[0] == '+' {
        start = 1;
    }
    let ghost body = unsigned_body(s@);
    assert(body =~= s@.skip(start as int));
    if start >= s.len() {
        return None;
    }
    let mut value: u64 = 0;
    let mut i: usize = start;
    while i < s.len()
        invariant
            start <= i <= s@.len(),
            body == s@.skip(start as int),
            body == unsigned_body(s@),
            body.len() > 0,
            forall|k: int| 0 <= k < i - start ==> is_digit(#[trigger] body[k]),
            value == digits_value(body.take(i - start)),
        decreases s@.len() - i,
    {
        let c = s[i];
        if !('0' <= c && c <= '9') {
            assert(!is_digit(body[i - start]));
            assert(!is_unsigned_text(s@));
            return None;
        }
        proof {
            lemma_digits_value_prefix(body, i - start);
        }
        let d = (c as u32 - 48) as u64;
        if value > (u64::MAX - d) / 10 {
            proof {
                assert(value * 10 + d > u64::MAX) by (nonlinear_arith)
                    requires value > (u64::MAX - d) / 10, d <= 9;
            }
            proof {
                if is_unsigned_text(s@) {
                    assert(forall|k: int| 0 <= k < body.len() ==> is_digit(#[trigger] body[k]));
                    lemma_digits_value_grows(body, i - start + 1);
                    assert(digits_value(body.take(i - start + 1)) == value * 10 + d);
                }
            }
            return None;
        }
        value = value * 10 + d;
        i = i + 1;
    }
    assert(body.take(i - start) =~= body);
    Some(value)
}

/// The decimal spelling of `n`.
pub fn decimal_string(n: u64) -> (out: String)
    ensures
        out@ == decimal(n as nat),
{
    let mut digits: Vec<char> = Vec::new();
    let mut m: u64 = n;
    // digits collects the spelling of n from the least significant end
    let ghost mut rest: Seq<char> = Seq::empty();
    while m >= 10
        invariant
            decimal(n as nat) == decimal(m as nat) + rest,
            digits@ == rest.reverse(),
        decreases m,
    {
        let d = m % 10;
        let c = ((d + 48) as u8) as char;
        proof {
            assert(decimal(m as nat) == decimal((m / 10) as nat).push(digit_char((m % 10) as nat)));
            assert(c == digit_char(d as nat));
            assert(decimal(m as nat) + rest =~= decimal((m / 10) as nat) + seq![c] + rest);
            assert(seq![c] + rest =~= rest.insert(0, c));
            assert((seq![c] + rest).reverse() =~= rest.reverse().push(c));
            rest = seq![c] + rest;
        }
        digits.push(c);
        m = m / 10;
        assert(decimal(n as nat) =~= decimal(m as nat) + rest);
    }
    let c = ((m + 48) as u8) as char;
    assert(c == digit_char(m as nat));
    digits.push(c);
    proof {
        assert(decimal(m as nat) =~= seq![c]);
        assert((seq![c] + rest).reverse() =~= rest.reverse().push(c));
        rest = seq![c] + rest;
    }
    assert(decimal(n as nat) =~= rest);
    let mut out = String::new();
    let mut i: usize = digits.len();
    while i > 0
        invariant
            i <= digits@.len(),
            digits@ == rest.reverse(),
            out@ == rest.take(digits@.len() - i),
            rest.len() == digits@.len(),
        decreases i,
    {
        i = i - 1;
        out.push(digits[i]);
        assert(out@ =~= rest.take(digits@.len() - i));
    }
    assert(rest.take(digits@.len() as int) =~= rest);
    out
}

} // verus!

verus! {

/// The decimal spelling of a signed integer, with a leading `-` when negative.
pub open spec fn signed_decimal(n: int) -> Seq<char> {
    if n < 0 { seq!['-'] + decimal((-n) as nat) } else { decimal(n as nat) }
}

/// The decimal spelling of `n`, as `i64::to_string` writes it.
pub fn signed_decimal_string(n: i64) -> (out: String)
    ensures
        out@ == signed_decimal(n as int),
{
    if n < 0 {
        let magnitude: u64 = if n == i64::MIN { 9223372036854775808u64 } else { (-n) as u64 };
        let mut out = String::from_str("-");
        out.append(decimal_string(magnitude).as_str());
        proof {
            reveal_strlit("-");
            assert("-"@ =~= seq!['-']);
        }
        out
    } else {
        decimal_string(n as u64)
    }
}

} // verus!
