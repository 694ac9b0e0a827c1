//! Values as the page templates print them: byte counts in binary units and
//! asset URLs carrying the build's fingerprint.
//!
//! Byte counts are printed as the browser's formatter prints them: the
//! count is taken as a double, divided by the largest power of 1024 that
//! fits (at most 1024⁴), and printed with one decimal (none for plain
//! bytes), ties going to the even digit. The arithmetic here is exact
//! integer arithmetic on the same values.
use vstd::prelude::*;

use crate::number::{decimal, decimal_string, digit_char};

verus! {

/// The spacing between neighbouring doubles around `b`: one below 2⁵³,
/// doubling with every further bit.
pub open spec fn double_spacing(b: nat) -> nat
    decreases b,
{
    if b < 0x20000000000000 {
        1
    } else {
        2 * double_spacing(b / 2)
    }
}

/// `n / d` rounded to the nearest integer, ties to the even one.
pub open spec fn round_half_even(n: nat, d: nat) -> nat {
    let q = n / d;
    let r = n % d;
    if 2 * r > d || (2 * r == d && q % 2 == 1) {
        q + 1
    } else {
        q
    }
}

/// The double nearest to `b` (ties to even), the value `b as f64` holds.
pub open spec fn nearest_double(b: nat) -> nat {
    let u = double_spacing(b);
    round_half_even(b, u) * u
}

/// The unit a byte count is printed in: 0 for bytes up to 4 for TiB.
pub open spec fn unit_index(b: nat) -> nat {
    if b < 1024 {
        0
    } else if b < 1048576 {
        1
    } else if b < 1073741824 {
        2
    } else if b < 1099511627776 {
        3
    } else {
        4
    }
}

/// 1024 to the power `i`.
pub open spec fn unit_size(i: nat) -> nat
    decreases i,
{
    if i == 0 {
        1
    } else {
        1024 * unit_size((i - 1) as nat)
    }
}

/// The name of unit `i`.
pub open spec fn unit_name(i: nat) -> Seq<char> {
    if i == 0 {
        "B"@
    } else if i == 1 {
        "KiB"@
    } else if i == 2 {
        "MiB"@
    } else if i == 3 {
        "GiB"@
    } else {
        "TiB"@
    }
}

/// A byte count for people: plain bytes below 1 KiB, otherwise the count
/// in its unit with one decimal.
pub open spec fn spec_render(b: nat) -> Seq<char> {
    let i = unit_index(b);
    if i == 0 {
        decimal(b) + " "@ + unit_name(0)
    } else {
        let tenths = round_half_even(nearest_double(b) * 10, unit_size(i));
        decimal(tenths / 10) + "."@ + seq![digit_char(tenths % 10)] + " "@ + unit_name(i)
    }
}

/// `b` as the double nearest to it.
fn nearest_double_of(b: u64) -> (r: u128)
    ensures
        r == nearest_double(b as nat),
        r <= 0x10000000000001000,
{
    let mut u: u128 = 1;
    let mut t: u64 = b;
    while t >= 0x20000000000000
        invariant
            1 <= u <= 4096,
            t == b as nat / u as nat,
            u * t <= b,
            u * double_spacing(t as nat) == double_spacing(b as nat),
        decreases t,
    {
        proof {
            vstd::arithmetic::div_mod::lemma_div_denominator(b as int, u as int, 2);
            assert(double_spacing(t as nat) == 2 * double_spacing((t / 2) as nat));
            assert(u * double_spacing(t as nat) == (2 * u) * double_spacing((t / 2) as nat)) by (nonlinear_arith)
                requires
                    double_spacing(t as nat) == 2 * double_spacing((t / 2) as nat),
            ;
            assert((2 * u) * (t / 2) <= u * t) by (nonlinear_arith)
                requires
                    1 <= u,
            ;
            assert(u <= 2048) by (nonlinear_arith)
                requires
                    u * t <= b,
                    t >= 0x20000000000000,
                    b < 0x10000000000000000,
            ;
        }
        t = t / 2;
        u = u * 2;
    }
    assert(double_spacing(t as nat) == 1);
    assert(u * double_spacing(t as nat) == u) by (nonlinear_arith)
        requires
            double_spacing(t as nat) == 1,
    ;
    let q: u128 = b as u128 / u;
    let r: u128 = b as u128 % u;
    let k: u128 = if 2 * r > u || (2 * r == u && q % 2 == 1) {
        q + 1
    } else {
        q
    };
    assert(k == round_half_even(b as nat, u as nat));
    assert(k * u <= 0x10000000000001000) by (nonlinear_arith)
        requires
            k <= q + 1,
            q == b as nat / u as nat,
            1 <= u <= 4096,
            b < 0x10000000000000000,
    {
        assert(q * u <= b) by (nonlinear_arith)
            requires
                q == b as nat / u as nat,
                1 <= u,
        ;
    }
    k * u
}

/// A byte count in binary units, as the dashboard and the browser print it.
pub fn render(bytes: u64) -> (r: String)
    ensures
        r@ == spec_render(bytes as nat),
{
    proof {
        reveal_strlit(" ");
        reveal_strlit("B");
    }
    if bytes < 1024 {
        let mut out = decimal_string(bytes);
        out.append(" B");
        proof {
            reveal_strlit(" B");
            assert(" B"@ =~= " "@ + "B"@);
            assert(out@ =~= decimal(bytes as nat) + " "@ + "B"@);
        }
        return out;
    }
    let (unit, name): (u128, &str) = if bytes < 1048576 {
        (1024, "KiB")
    } else if bytes < 1073741824 {
        (1048576, "MiB")
    } else if bytes < 1099511627776 {
        (1073741824, "GiB")
    } else {
        (1099511627776, "TiB")
    };
    proof {
        let i = unit_index(bytes as nat);
        reveal_with_fuel(unit_size, 5);
        assert(unit == unit_size(i));
        assert(name@ == unit_name(i));
    }
    let x: u128 = nearest_double_of(bytes) * 10;
    let n: u128 = x / unit;
    let rem: u128 = x % unit;
    let tenths: u128 = if 2 * rem > unit || (2 * rem == unit && n % 2 == 1) {
        n + 1
    } else {
        n
    };
    proof {
        vstd::arithmetic::div_mod::lemma_div_is_ordered_by_denominator(x as int, 1024, unit as int);
        vstd::arithmetic::div_mod::lemma_div_is_ordered(x as int, 0x10000000000001000int * 10, 1024);
    }
    let whole: u64 = (tenths / 10) as u64;
    let digit: u64 = (tenths % 10) as u64;
    let mut out = decimal_string(whole);
    out.append(".");
    out.push(((digit + 48) as u8) as char);
    out.append(" ");
    out.append(name);
    proof {
        reveal_strlit(".");
        assert(((digit + 48) as u8) as char == digit_char(digit as nat));
    }
    out
}

/// A signed byte count from the database, clamped to the unsigned range,
/// in binary units.
pub fn format_bytes(value: i128) -> (r: String)
    ensures
        r@ == spec_render(if value < 0 {
            0
        } else if value > u64::MAX {
            u64::MAX as nat
        } else {
            value as nat
        }),
{
    let clamped: u64 = if value < 0 {
        0
    } else if value > u64::MAX as i128 {
        u64::MAX
    } else {
        value as u64
    };
    render(clamped)
}

/// A static asset's URL with the build's fingerprint as its `v` query, so
/// that a new build is never served a stale cached copy.
pub fn asset(path: &str, version: &str) -> (r: String)
    ensures
        r@ == path@ + "?v="@ + version@,
{
    let mut out = String::from_str(path);
    out.append("?v=");
    out.append(version);
    out
}

} // verus!
