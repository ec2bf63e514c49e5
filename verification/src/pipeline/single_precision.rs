//! Quotients of whole numbers as binary floating point of single
//! precision holds them, in exact integer arithmetic.
//!
//! A number of single precision is a whole number of at most 24 bits times
//! a power of two. Converting a whole number, dividing, and writing the
//! result with two decimals each round to the nearest value that can be
//! held, and to the even one of two that are equally near.

use vstd::prelude::*;

verus! {

/// `n / d` rounded to the nearest whole number, a tie to the even one.
pub open spec fn round_even(n: int, d: int) -> int {
    let q = n / d;
    let r = n % d;
    if 2 * r > d || (2 * r == d && q % 2 == 1) {
        q + 1
    } else {
        q
    }
}

/// The power of two by which a number of `unit` times `t` has to be
/// counted so that 24 bits hold the count: `unit` is doubled for as long as
/// `t`, halved along, needs more bits.
pub open spec fn unit_of(t: int, unit: int) -> int
    decreases t,
{
    if t < 0x100_0000 {
        unit
    } else {
        unit_of(t / 2, 2 * unit)
    }
}

/// The whole number that single precision holds for `n`: `n` itself where
/// 24 bits hold it, and else the nearest multiple of its unit.
pub open spec fn single_of(n: int) -> int {
    round_even(n, unit_of(n, 1)) * unit_of(n, 1)
}

/// How far `low` lies below `high`; 0 where it does not.
pub open spec fn gap(high: int, low: int) -> int {
    if low < high {
        high - low
    } else {
        0
    }
}

/// A numerator doubled until the quotient by `d` needs 24 bits, and the
/// power of two by which it was multiplied.
pub open spec fn raised(n: int, d: int, scale: int) -> (int, int)
    decreases gap(d * 0x80_0000, n),
{
    if n <= 0 || n >= d * 0x80_0000 {
        (n, scale)
    } else {
        raised(2 * n, d, 2 * scale)
    }
}

/// A denominator doubled until the quotient of `n` by it needs no more
/// than 24 bits, and the power of two by which it was multiplied.
pub open spec fn lowered(n: int, d: int, scale: int) -> (int, int)
    decreases gap(n + 1, d * 0x100_0000),
{
    if d <= 0 || n < d * 0x100_0000 {
        (d, scale)
    } else {
        lowered(n, 2 * d, 2 * scale)
    }
}

/// The quotient of two whole numbers in hundredths, computed as single
/// precision computes it: both numbers are converted, their quotient is
/// rounded to 24 bits, and that value is rounded to hundredths.
pub open spec fn single_hundredths(x: int, size: int) -> int {
    let a = single_of(x);
    let b = single_of(size);
    let (n, up) = raised(a, b, 1);
    let (d, down) = lowered(n, b, 1);
    round_even(100 * round_even(n, d) * down, up)
}

/// Computes [`round_even`].
pub fn rounded(n: u128, d: u128) -> (r: u128)
    requires
        d > 0,
        n <= 0xffff_ffff_ffff_ffff_ffff,
        d <= 0xffff_ffff_ffff_ffff_ffff,
    ensures
        r == round_even(n as int, d as int),
        r <= n / d + 1,
{
    let q = n / d;
    let r = n % d;
    if 2 * r > d || (2 * r == d && q % 2 == 1) {
        q + 1
    } else {
        q
    }
}

/// Computes [`single_of`].
pub fn to_single(n: u32) -> (r: u64)
    ensures
        r == single_of(n as int),
        r <= 0x2_0000_0000,
        n > 0 ==> r > 0,
{
    let mut t: u64 = n as u64;
    let mut unit: u64 = 1;
    while t >= 0x100_0000
        invariant
            unit_of(t as int, unit as int) == unit_of(n as int, 1),
            1 <= unit <= 0x200,
            t * unit <= n,
            n < (t + 1) * unit,
            unit == 1 || t >= 0x80_0000,
        decreases t,
    {
        assert((t / 2) * (2 * unit) <= n && n < (t / 2 + 1) * (2 * unit)) by (nonlinear_arith)
            requires
                t * unit <= n,
                n < (t + 1) * unit,
                unit >= 1,
        ;
        assert(2 * unit <= 0x200) by (nonlinear_arith)
            requires
                t * unit <= n,
                t >= 0x100_0000,
                n <= 0xffff_ffff,
                unit >= 1,
        ;
        t = t / 2;
        unit = 2 * unit;
    }
    let count = rounded(n as u128, unit as u128);
    assert(n as int / unit as int == t) by (nonlinear_arith)
        requires
            t * unit <= n,
            n < (t + 1) * unit,
            unit >= 1,
    ;
    assert(unit == 1 ==> count == n) by {
        if unit == 1 {
            assert(n as int % 1 == 0);
        }
    }
    assert(count * unit <= 0x2_0000_0000) by (nonlinear_arith)
        requires
            count <= 0x100_0000,
            unit <= 0x200,
    ;
    assert(n > 0 ==> count * unit > 0) by (nonlinear_arith)
        requires
            count >= t,
            unit >= 1,
            unit == 1 || t >= 0x80_0000,
            unit == 1 ==> count == n,
    ;
    (count * unit as u128) as u64
}

/// Computes [`single_hundredths`].
pub fn quotient_in_hundredths(x: u32, size: u32) -> (h: u64)
    requires
        size > 0,
    ensures
        h == single_hundredths(x as int, size as int),
{
    let a = to_single(x);
    let b = to_single(size);
    let mut n: u128 = a as u128;
    let mut up: u128 = 1;
    while n > 0 && n < b as u128 * 0x80_0000
        invariant
            raised(n as int, b as int, up as int) == raised(a as int, b as int, 1),
            1 <= b <= 0x2_0000_0000,
            a <= 0x2_0000_0000,
            1 <= up,
            up <= n || n == 0,
            n == 0 ==> up == 1,
            n <= 0x200_0000_0000_0000,
            up == 1 ==> n == a,
            up == 1 || n < b * 0x100_0000,
        decreases gap(b * 0x80_0000, n as int),
    {
        n = 2 * n;
        up = 2 * up;
    }
    let mut d: u128 = b as u128;
    let mut down: u128 = 1;
    while n >= d * 0x100_0000
        invariant
            lowered(n as int, d as int, down as int) == lowered(n as int, b as int, 1),
            1 <= down <= d,
            b <= d,
            d <= 0x400_0000_0000_0000,
            n <= 0x200_0000_0000_0000,
            up == 1 || n < b * 0x100_0000,
            up == 1 ==> n <= 0x2_0000_0000,
            down == 1 || d * 0x80_0000 <= n,
            down == 1 || n <= 0x2_0000_0000,
            1 <= up <= 0x200_0000_0000_0000,
        decreases gap(n + 1, d * 0x100_0000),
    {
        d = 2 * d;
        down = 2 * down;
    }
    let m = rounded(n, d);
    assert(n / d < 0x100_0000 && (n / d) * d <= n) by (nonlinear_arith)
        requires
            n < d * 0x100_0000,
            d > 0,
    ;
    assert(m * down <= 0x10_0000_0000) by (nonlinear_arith)
        requires
            m <= n / d + 1,
            n / d < 0x100_0000,
            (n / d) * d <= n,
            1 <= down <= d,
            down == 1 || (n <= 0x2_0000_0000 && d * 0x80_0000 <= n),
    ;
    let total: u128 = 100 * (m * down);
    assert(total == 100 * m * down) by (nonlinear_arith)
        requires
            total == 100 * (m * down),
    ;
    let h = rounded(total, up);
    assert(total / up <= total) by (nonlinear_arith)
        requires
            up >= 1,
            total >= 0,
    ;
    h as u64
}

} // verus!
