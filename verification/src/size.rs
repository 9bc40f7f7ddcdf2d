//! Sizes for human readers.

use crate::number::{decimal, push_decimal};
use vstd::arithmetic::div_mod::lemma_div_denominator;
use vstd::arithmetic::power2::{lemma2_to64, lemma_pow2_pos, lemma_pow2_unfold, pow2};
use vstd::prelude::*;

verus! {

/// Two to the 53rd: below it, a double precision number tells all integers apart.
pub const EXACT: u128 = 9007199254740992;

/// `n / d`, rounded to the nearest integer, halves to the even one.
pub open spec fn nearest(n: nat, d: nat) -> nat {
    let q = n / d;
    let rem = n % d;
    if 2 * rem > d || (2 * rem == d && q % 2 == 1) {
        q + 1
    } else {
        q
    }
}

/// The distance of double precision numbers near `n`, where it is `d` or more.
pub open spec fn spacing(n: nat, d: nat) -> nat
    decreases n / d,
{
    if d == 0 || n / d < EXACT {
        d
    } else {
        proof {
            lemma_div_denominator(n as int, d as int, 2);
        }
        spacing(n, d * 2)
    }
}

/// The double precision number nearest to `n`.
pub open spec fn double_of(n: nat) -> nat {
    if n < EXACT {
        n
    } else {
        nearest(n, spacing(n, 1)) * spacing(n, 1)
    }
}

/// How many times a size is divided by 1024: as long as that leaves 1 or
/// more, but four times at most.
pub open spec fn unit_of(v: nat) -> nat {
    if v < 1024 {
        0
    } else if v < 1048576 {
        1
    } else if v < 1073741824 {
        2
    } else if v < 1099511627776 {
        3
    } else {
        4
    }
}

/// How many bytes a unit is.
pub open spec fn unit_bytes(u: nat) -> nat {
    if u == 0 {
        1
    } else if u == 1 {
        1024
    } else if u == 2 {
        1048576
    } else if u == 3 {
        1073741824
    } else {
        1099511627776
    }
}

/// The name of a unit.
pub open spec fn unit_name(u: nat) -> Seq<char> {
    if u == 0 {
        " B"@
    } else if u == 1 {
        " KB"@
    } else if u == 2 {
        " MB"@
    } else if u == 3 {
        " GB"@
    } else {
        " TB"@
    }
}

/// A size in its unit, in tenths: of the double precision number nearest to
/// it, rounded to the nearest tenth.
pub open spec fn tenths_of(bytes: nat) -> nat {
    let v = double_of(bytes);
    nearest(v * 10, unit_bytes(unit_of(v)))
}

/// A size for human readers: below 1024 in bytes, else with one decimal in
/// the greatest unit of which there is at least one.
pub open spec fn human_size_spec(bytes: nat) -> Seq<char> {
    let u = unit_of(double_of(bytes));
    if u == 0 {
        decimal(bytes) + unit_name(0)
    } else {
        let t = tenths_of(bytes);
        decimal(t / 10) + "."@ + decimal(t % 10) + unit_name(u)
    }
}

/// Rounds a quotient to the nearest integer, halves to the even one.
fn round_half_even(n: u128, d: u128) -> (r: u128)
    requires
        0 < d < 0x1_0000_0000_0000_0000_0000,
        n < 0x1_0000_0000_0000_0000_0000,
    ensures
        r == nearest(n as nat, d as nat),
        r <= n / d + 1,
{
    let q: u128 = n / d;
    let rem: u128 = n % d;
    assert(q <= n) by (nonlinear_arith)
        requires
            q == n / d,
            d > 0,
    ;
    if 2 * rem > d || (2 * rem == d && q % 2 == 1) {
        q + 1
    } else {
        q
    }
}

/// The double precision number nearest to an integer.
fn to_double(n: u64) -> (r: u128)
    ensures
        r == double_of(n as nat),
        r <= 0x2_0000_0000_0000_0000,
{
    let wide: u128 = n as u128;
    if wide < EXACT {
        return wide;
    }
    let mut d: u128 = 1;
    while wide / d >= EXACT
        invariant
            wide == n,
            wide >= EXACT,
            0 < d <= 0x1_0000_0000_0000_0000,
            d == 1 || wide >= d,
            spacing(n as nat, d as nat) == spacing(n as nat, 1),
        decreases wide / d,
    {
        proof {
            lemma_div_denominator(wide as int, d as int, 2);
            assert(wide >= 2 * d) by (nonlinear_arith)
                requires
                    wide / d >= 9007199254740992,
                    d > 0,
            ;
        }
        d = d * 2;
    }
    let q = round_half_even(wide, d);
    assert(q * d <= wide + d) by (nonlinear_arith)
        requires
            q <= wide / d + 1,
            d > 0,
    ;
    q * d
}

/// A size for human readers.
pub fn human_size(bytes: u64) -> (r: String)
    ensures
        r@ == human_size_spec(bytes as nat),
{
    let v = to_double(bytes);
    let mut out = String::new();
    if v < 1024 {
        push_decimal(&mut out, bytes);
        out.append(" B");
        assert(out@ =~= human_size_spec(bytes as nat));
        return out;
    }
    let (unit, name): (u128, &str) = if v < 1048576 {
        (1024, " KB")
    } else if v < 1073741824 {
        (1048576, " MB")
    } else if v < 1099511627776 {
        (1073741824, " GB")
    } else {
        (1099511627776, " TB")
    };
    let t = round_half_even(v * 10, unit);
    assert(t < 0x1_0000_0000_0000_0000) by {
        assert(v * 10 / unit as int <= v * 10 / 1024) by (nonlinear_arith)
            requires
                unit >= 1024,
                v >= 0,
        ;
    }
    let ghost u = unit_of(v as nat);
    assert(name@ == unit_name(u) && unit == unit_bytes(u));
    assert(t == tenths_of(bytes as nat));
    push_decimal(&mut out, (t / 10) as u64);
    out.append(".");
    push_decimal(&mut out, (t % 10) as u64);
    out.append(name);
    assert(out@ =~= human_size_spec(bytes as nat));
    out
}

// ---------------------------------------------------------------------------
// Laws
// ---------------------------------------------------------------------------

/// Rounding is off by half at most.
proof fn lemma_nearest(n: nat, d: nat)
    requires
        d > 0,
    ensures
        2 * nearest(n, d) * d <= 2 * n + d,
        2 * n <= 2 * nearest(n, d) * d + d,
{
    let q = n / d;
    let rem = n % d;
    assert(n == q * d + rem && rem < d) by (nonlinear_arith)
        requires
            q == n / d,
            rem == n % d,
            d > 0,
    ;
    assert(2 * (q + 1) * d == 2 * (q * d) + 2 * d && 2 * q * d == 2 * (q * d))
        by (nonlinear_arith);
}

/// What is shown of a size of 1024 bytes or more, below 2 to the 53rd, is off
/// by half a tenth of its unit at most.
pub proof fn law_human_size_close(bytes: nat)
    requires
        1024 <= bytes < EXACT,
    ensures
        ({
            let unit = unit_bytes(unit_of(bytes));
            &&& human_size_spec(bytes) == decimal(tenths_of(bytes) / 10) + "."@ + decimal(
                tenths_of(bytes) % 10,
            ) + unit_name(unit_of(bytes))
            &&& 2 * tenths_of(bytes) * unit <= 20 * bytes + unit
            &&& 20 * bytes <= 2 * tenths_of(bytes) * unit + unit
        }),
{
    lemma_nearest(bytes * 10, unit_bytes(unit_of(bytes)));
}

/// The text shows `bytes` in the unit, with one decimal: the tenths that are
/// nearest, and the even ones of two that are equally near.
pub open spec fn shows(text: Seq<char>, bytes: nat, unit: nat, name: Seq<char>) -> bool {
    exists|t: nat| #[trigger]
        nearest_tenths(bytes, unit, t) && text == decimal(t / 10) + "."@ + decimal(t % 10) + name
}

/// `t` tenths of the unit are nearest to `bytes`.
pub open spec fn nearest_tenths(bytes: nat, unit: nat, t: nat) -> bool {
    &&& 2 * t * unit <= 20 * bytes + unit
    &&& 20 * bytes <= 2 * t * unit + unit
    &&& (2 * t * unit == 20 * bytes + unit || 20 * bytes == 2 * t * unit + unit) ==> t % 2 == 0
}

/// Of a tie, the even one is taken.
proof fn lemma_nearest_even(n: nat, d: nat)
    requires
        d > 0,
    ensures
        (2 * nearest(n, d) * d == 2 * n + d || 2 * n == 2 * nearest(n, d) * d + d) ==> nearest(n, d)
            % 2 == 0,
{
    let q = n / d;
    let rem = n % d;
    assert(n == q * d + rem && rem < d) by (nonlinear_arith)
        requires
            q == n / d,
            rem == n % d,
            d > 0,
    ;
    assert(2 * (q + 1) * d == 2 * (q * d) + 2 * d && 2 * q * d == 2 * (q * d))
        by (nonlinear_arith);
}

/// Sizes are shown in bytes below 1024, and else in the greatest of KB, MB, GB
/// and TB, of 1024 each, of which there is at least one. This is said up to 2
/// to the 53rd, below which no bytes get lost on the way.
pub proof fn law_human_size(bytes: nat)
    requires
        bytes < 9007199254740992,
    ensures
        bytes < 1024 ==> human_size_spec(bytes) == decimal(bytes) + " B"@,
        1024 <= bytes < 1048576 ==> shows(human_size_spec(bytes), bytes, 1024, " KB"@),
        1048576 <= bytes < 1073741824 ==> shows(human_size_spec(bytes), bytes, 1048576, " MB"@),
        1073741824 <= bytes < 1099511627776 ==> shows(
            human_size_spec(bytes),
            bytes,
            1073741824,
            " GB"@,
        ),
        1099511627776 <= bytes ==> shows(human_size_spec(bytes), bytes, 1099511627776, " TB"@),
{
    let unit = unit_bytes(unit_of(bytes));
    let t = tenths_of(bytes);
    lemma_nearest(bytes * 10, unit);
    lemma_nearest_even(bytes * 10, unit);
    assert(nearest_tenths(bytes, unit, t));
}

/// `x` is the double precision number nearest to `n`: a multiple of a power of
/// two, of 53 binary digits, and of two that are equally near the even one.
pub open spec fn nearest_double(n: nat, x: nat) -> bool {
    exists|k: nat, q: nat| #[trigger] binary_digits(n, x, k, q)
}

/// `x` is `q` times two to the `k`th, which leaves 53 binary digits of `n`, and
/// no such number is nearer to `n`.
pub open spec fn binary_digits(n: nat, x: nat, k: nat, q: nat) -> bool {
    let s = pow2(k);
    &&& x == q * s
    &&& 4503599627370496 <= n / s < 9007199254740992
    &&& 2 * x <= 2 * n + s
    &&& 2 * n <= 2 * x + s
    &&& (2 * x == 2 * n + s || 2 * n == 2 * x + s) ==> q % 2 == 0
}

/// The distance of double precision numbers is a power of two.
proof fn lemma_spacing(n: nat, d: nat, j: nat) -> (k: nat)
    requires
        d == pow2(j),
        4503599627370496 <= n / d,
    ensures
        spacing(n, d) == pow2(k),
        4503599627370496 <= n / spacing(n, d) < 9007199254740992,
        spacing(n, d) >= d,
        n / d >= 9007199254740992 ==> spacing(n, d) >= 2 * d,
    decreases n / d,
{
    lemma_pow2_pos(j);
    if n / d < EXACT {
        j
    } else {
        lemma_div_denominator(n as int, d as int, 2);
        lemma_pow2_unfold(j + 1);
        assert(d * 2 == pow2(j + 1));
        lemma_spacing(n, d * 2, j + 1)
    }
}

/// A size of 2 to the 53rd bytes or more is shown in TB, of the double
/// precision number that is nearest to it.
pub proof fn law_large_size(bytes: nat)
    requires
        bytes >= 9007199254740992,
    ensures
        exists|x: nat| #[trigger]
            nearest_double(bytes, x) && shows(human_size_spec(bytes), x, 1099511627776, " TB"@),
{
    lemma2_to64();
    let k = lemma_spacing(bytes, 1, 0);
    let s = spacing(bytes, 1);
    let q = nearest(bytes, s);
    let x = double_of(bytes);
    lemma_nearest(bytes, s);
    lemma_nearest_even(bytes, s);
    assert(2 * q * s == 2 * (q * s)) by (nonlinear_arith);
    assert(binary_digits(bytes, x, k, q));
    assert(nearest_double(bytes, x));
    assert(x >= 9007199254740992) by (nonlinear_arith)
        requires
            q >= 4503599627370496,
            s >= 2,
            x == q * s,
    ;
    let t = tenths_of(bytes);
    lemma_nearest(x * 10, 1099511627776);
    lemma_nearest_even(x * 10, 1099511627776);
    assert(nearest_tenths(x, 1099511627776, t));
}

} // verus!
