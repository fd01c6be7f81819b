//! Numbers of single precision, which have 24 significant bits, counted in units
//! of two to the power of minus 62. The sums and the products of the colours of a
//! picture are whole numbers of units before they are rounded.
use vstd::arithmetic::div_mod::{lemma_fundamental_div_mod, lemma_fundamental_div_mod_converse};
use vstd::arithmetic::power2::{
    lemma2_to64, lemma2_to64_rest, lemma_pow2_pos, lemma_pow2_unfold, pow2,
};
use vstd::prelude::*;

verus! {

/// The number one, in units.
pub const ONE: i128 = 0x4000_0000_0000_0000;

/// What numbers of some size are rounded to a multiple of, so that 24 bits are
/// enough to tell which.
pub open spec fn spacing(value: int) -> int
    decreases value,
{
    if value < 0x100_0000 {
        1
    } else {
        2 * spacing(value / 2)
    }
}

/// The number of single precision that is nearest to one that is not negative;
/// between two that are as near, the one whose last bit is zero.
pub open spec fn nearest(value: int) -> int {
    let unit = spacing(value);
    let count = value / unit;
    let left = value % unit;
    if 2 * left > unit || (2 * left == unit && count % 2 == 1) {
        (count + 1) * unit
    } else {
        count * unit
    }
}

/// The number of single precision that is nearest to one.
pub open spec fn single(value: int) -> int {
    if value < 0 {
        -nearest(-value)
    } else {
        nearest(value)
    }
}

pub open spec fn product(a: int, b: int) -> int {
    if a * b < 0 {
        -(nearest(-(a * b)) / ONE as int)
    } else {
        nearest(a * b) / ONE as int
    }
}

/// One whole number by another.
pub open spec fn quotient(a: int, b: int) -> int {
    nearest(a * ONE / b)
}

proof fn lemma_spacing(value: int)
    requires
        0 <= value,
    ensures
        1 <= spacing(value),
        value < 0x100_0000 * spacing(value),
        spacing(value) == 1 || 0x80_0000 * spacing(value) <= value,
    decreases value,
{
    if value >= 0x100_0000 {
        lemma_spacing(value / 2);
    }
}

/// Rounding moves a number by less than one part in eight million.
pub proof fn lemma_nearest(value: int)
    requires
        0 <= value,
    ensures
        value - value / 0x80_0000 <= nearest(value) <= value + value / 0x80_0000,
{
    let unit = spacing(value);
    lemma_spacing(value);
    lemma_fundamental_div_mod(value, unit);
    let count = value / unit;
    assert((count + 1) * unit == count * unit + unit) by (nonlinear_arith);
    assert(unit * count == count * unit) by (nonlinear_arith);
    if unit > 1 {
        assert(unit <= value / 0x80_0000);
    }
}

pub proof fn lemma_single(value: int, limit: int)
    requires
        -limit <= value <= limit,
    ensures
        value - limit / 0x80_0000 <= single(value) <= value + limit / 0x80_0000,
        0 <= value ==> 0 <= single(value),
{
    if value < 0 {
        lemma_nearest(-value);
    } else {
        lemma_nearest(value);
    }
}

pub proof fn lemma_product(a: int, b: int, limit: int)
    requires
        -limit * ONE <= a * b <= limit * ONE,
    ensures
        -limit - limit / 0x80_0000 - 1 <= product(a, b) <= limit + limit / 0x80_0000 + 1,
        0 <= a * b ==> 0 <= product(a, b),
{
    lemma_single(a * b, limit * ONE);
}

pub proof fn lemma_quotient(a: int, b: int)
    requires
        0 <= a <= b,
        0 < b,
    ensures
        0 <= quotient(a, b) <= ONE + 0x100_0000_0000,
        a * ONE / b - 0x100_0000_0000 <= quotient(a, b) <= a * ONE / b + 0x100_0000_0000,
{
    assert(0 <= a * ONE / b <= ONE) by (nonlinear_arith)
        requires
            0 <= a <= b,
            0 < b,
    ;
    lemma_nearest(a * ONE / b);
}

fn spacing_of(value: u128) -> (unit: u128)
    ensures
        unit == spacing(value as int),
    decreases value,
{
    if value < 0x100_0000 {
        1
    } else {
        proof {
            lemma_spacing(value as int / 2);
        }
        2 * spacing_of(value / 2)
    }
}

fn round_up_or_down(value: u128) -> (r: u128)
    requires
        value <= 0x7fff_0000_0000_0000_0000_0000_0000_0000,
    ensures
        r == nearest(value as int),
{
    let unit: u128 = spacing_of(value);
    proof {
        lemma_spacing(value as int);
        lemma_nearest(value as int);
        lemma_fundamental_div_mod(value as int, unit as int);
        let count = value as int / unit as int;
        assert((count + 1) * unit == count * unit + unit) by (nonlinear_arith);
        assert(unit * count == count * unit) by (nonlinear_arith);
        assert(0 <= count * unit) by (nonlinear_arith)
            requires
                0 <= count,
                0 <= unit,
        ;
    }
    let count: u128 = value / unit;
    let left: u128 = value % unit;
    if left > unit - left || (left == unit - left && count % 2 == 1) {
        (count + 1) * unit
    } else {
        count * unit
    }
}

/// The largest number that is rounded.
pub const MAX_PRODUCT: i128 = 0x7fff_0000_0000_0000_0000_0000_0000_0000;

pub fn rounded(value: i128) -> (r: i128)
    requires
        -MAX_PRODUCT <= value <= MAX_PRODUCT,
    ensures
        r == single(value as int),
{
    proof {
        lemma_single(value as int, MAX_PRODUCT as int);
    }
    if value < 0 {
        -(round_up_or_down((-value) as u128) as i128)
    } else {
        round_up_or_down(value as u128) as i128
    }
}

pub fn times(a: i128, b: i128) -> (r: i128)
    requires
        -MAX_PRODUCT <= a * b <= MAX_PRODUCT,
    ensures
        r == product(a as int, b as int),
{
    let exact: i128 = a * b;
    proof {
        lemma_single(exact as int, MAX_PRODUCT as int);
    }
    if exact < 0 {
        -((round_up_or_down((-exact) as u128) / ONE as u128) as i128)
    } else {
        (round_up_or_down(exact as u128) / ONE as u128) as i128
    }
}

pub fn divided(a: u16, b: u16) -> (r: i128)
    requires
        b > 0,
    ensures
        r == quotient(a as int, b as int),
{
    let scaled: u128 = a as u128 * 0x4000_0000_0000_0000;
    let exact: u128 = scaled / b as u128;
    proof {
        assert(0 <= scaled as int / b as int <= scaled) by (nonlinear_arith)
            requires
                0 <= scaled,
                b > 0,
        ;
        lemma_nearest(exact as int);
    }
    round_up_or_down(exact) as i128
}

proof fn lemma_spacing_of_bits(m: int, e: nat, r: int)
    requires
        0x80_0000 <= m < 0x100_0000,
        0 <= r < pow2(e),
    ensures
        spacing(m * pow2(e) + r) == pow2(e),
        (m * pow2(e) + r) / pow2(e) as int == m,
        (m * pow2(e) + r) % pow2(e) as int == r,
        pow2(e) >= 1,
    decreases e,
{
    lemma_pow2_pos(e);
    let p = pow2(e) as int;
    lemma_fundamental_div_mod_converse(m * p + r, p, m, r);
    if e == 0 {
        lemma2_to64();
        assert(m * p + r == m);
    } else {
        let q = pow2((e - 1) as nat) as int;
        lemma_pow2_unfold(e);
        assert(p == 2 * q);
        let value = m * p + r;
        assert(value / 2 == m * q + r / 2) by {
            assert(m * (2 * q) == 2 * (m * q)) by (nonlinear_arith);
        }
        lemma_spacing_of_bits(m, (e - 1) as nat, r / 2);
        assert(value >= 0x100_0000) by {
            assert(m * p >= 0x80_0000 * 2) by (nonlinear_arith)
                requires
                    m >= 0x80_0000,
                    p >= 2,
            ;
            lemma_pow2_pos((e - 1) as nat);
        }
    }
}

/// Law: a number of 24 bits is kept. Of a longer one the first 24 bits are kept,
/// and the rest rounds them: up where it is more than half of the last of them,
/// down where it is less, and at the half so that the last one is zero. A
/// negative number is rounded as its opposite.
pub proof fn law_rounding(m: int, e: nat, r: int, value: int)
    requires
        0x80_0000 <= m < 0x100_0000,
        0 <= r < pow2(e),
    ensures
        -0x100_0000 < value < 0x100_0000 ==> single(value) == value,
        single(-value) == -single(value),
        2 * r < pow2(e) ==> single(m * pow2(e) + r) == m * pow2(e),
        2 * r > pow2(e) ==> single(m * pow2(e) + r) == (m + 1) * pow2(e),
        2 * r == pow2(e) && m % 2 == 0 ==> single(m * pow2(e) + r) == m * pow2(e),
        2 * r == pow2(e) && m % 2 == 1 ==> single(m * pow2(e) + r) == (m + 1) * pow2(e),
{
    lemma_spacing_of_bits(m, e, r);
    assert(m * pow2(e) + r >= 0) by (nonlinear_arith)
        requires
            m >= 0,
            pow2(e) >= 1,
            r >= 0,
    ;
}

/// Law: to multiply by one is to round, and a number by itself is one.
pub proof fn law_one_is_neutral(a: int, b: int)
    requires
        0 <= a < 0x100_0000,
        0 < b,
    ensures
        quotient(b, b) == ONE,
        quotient(0, b) == 0,
        product(0, a) == 0,
{
    assert(b * ONE / b == ONE) by (nonlinear_arith)
        requires
            b > 0,
    ;
    assert(0 * ONE / b == 0) by (nonlinear_arith)
        requires
            b > 0,
    ;
    lemma2_to64_rest();
    assert(ONE == 0x80_0000 * pow2(39) + 0);
    lemma_pow2_pos(39);
    law_rounding(0x80_0000, 39, 0, 0);
    assert(0 * a == 0);
    assert(spacing(0) == 1);
}

} // verus!
