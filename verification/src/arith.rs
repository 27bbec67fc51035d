//! Wrapping 32-bit arithmetic, stated over mathematical integers.

use vstd::prelude::*;
use vstd::arithmetic::power::pow;

verus! {

/// The 32-bit signed integer that is congruent to `x` modulo 2^32.
pub open spec fn wrap32(x: int) -> i32 {
    let r = x % 0x1_0000_0000;
    if r > i32::MAX {
        (r - 0x1_0000_0000) as i32
    } else {
        r as i32
    }
}

/// The absolute value of `x`.
pub open spec fn magnitude(x: int) -> int {
    if x < 0 {
        -x
    } else {
        x
    }
}

/// The quotient of `a` by `b` rounded toward zero. Meaningful for `b != 0`.
pub open spec fn truncating_quotient(a: int, b: int) -> int {
    let q = magnitude(a) / magnitude(b);
    if (a < 0) != (b < 0) {
        -q
    } else {
        q
    }
}

/// `wrap32` is the identity on values that already fit.
pub proof fn lemma_wrap32_fits(x: int)
    requires
        i32::MIN <= x <= i32::MAX,
    ensures
        wrap32(x) == x,
{
}

/// The sum of `a` and `b`, wrapped.
pub fn add_wrapping(a: i32, b: i32) -> (r: i32)
    ensures
        r == wrap32(a + b),
{
    a.wrapping_add(b)
}

/// The difference of `a` and `b`, wrapped.
pub fn sub_wrapping(a: i32, b: i32) -> (r: i32)
    ensures
        r == wrap32(a - b),
{
    a.wrapping_sub(b)
}

/// The product of `a` and `b`, wrapped.
pub fn mul_wrapping(a: i32, b: i32) -> (r: i32)
    ensures
        r == wrap32(a * b),
{
    a.wrapping_mul(b)
}

/// The quotient of `a` by a non-zero `b`, rounded toward zero and wrapped
/// (only `i32::MIN / -1` wraps).
pub fn div_truncating(a: i32, b: i32) -> (r: i32)
    requires
        b != 0,
    ensures
        r == wrap32(truncating_quotient(a as int, b as int)),
{
    let la: i64 = a as i64;
    let lb: i64 = b as i64;
    let ma: u64 = (if la < 0 { -la } else { la }) as u64;
    let mb: u64 = (if lb < 0 { -lb } else { lb }) as u64;
    let q: u64 = ma / mb;
    assert(q <= ma) by (nonlinear_arith)
        requires
            q == ma / mb,
            mb > 0,
    ;
    assert(q as int == magnitude(a as int) / magnitude(b as int));
    let sq: i64 = q as i64;
    let s: i64 = if (a < 0) != (b < 0) { -sq } else { sq };
    assert(s == truncating_quotient(a as int, b as int));
    if s > 0x7fff_ffff {
        assert(mb >= 1);
        assert(s == 0x8000_0000i64);
        i32::MIN
    } else {
        assert(s >= -0x8000_0000i64);
        s as i32
    }
}

/// Two integers wrap to the same value where they leave the same
/// remainder modulo 2^32.
pub proof fn lemma_wrap32_congruent(x: int, y: int)
    requires
        x % 0x1_0000_0000 == y % 0x1_0000_0000,
    ensures
        wrap32(x) == wrap32(y),
{
}

/// A wrapped value leaves the remainder of the value modulo 2^32.
pub proof fn lemma_wrap32_remainder(x: int)
    ensures
        (wrap32(x) as int) % 0x1_0000_0000 == x % 0x1_0000_0000,
{
}

/// One step of square-and-multiply: with the exponent halved, the base
/// squared and the odd factor moved into the accumulator, wrapped or not,
/// the wrapped power is the same.
pub proof fn lemma_square_and_multiply(acc: int, base: int, e: nat, acc2: int, base2: int)
    requires
        e > 0,
        base2 % 0x1_0000_0000 == (base * base) % 0x1_0000_0000,
        e % 2 == 1 ==> acc2 % 0x1_0000_0000 == (acc * base) % 0x1_0000_0000,
        e % 2 == 0 ==> acc2 == acc,
    ensures
        wrap32(acc2 * pow(base2, e / 2)) == wrap32(acc * pow(base, e)),
{
    let m: int = 0x1_0000_0000;
    let h: nat = e / 2;
    let square: int = base * base;
    vstd::arithmetic::power::lemma_pow_mod_noop(base2, h, m);
    vstd::arithmetic::power::lemma_pow_mod_noop(square, h, m);
    assert(pow(base2, h) % m == pow(square, h) % m);
    vstd::arithmetic::power::lemma_square_is_pow2(base);
    vstd::arithmetic::power::lemma_pow_multiplies(base, 2, h);
    assert(pow(square, h) == pow(base, 2 * h));
    vstd::arithmetic::div_mod::lemma_mul_mod_noop_general(acc2, pow(base2, h), m);
    if e % 2 == 0 {
        assert(2 * h == e);
        vstd::arithmetic::div_mod::lemma_mul_mod_noop_general(acc, pow(base, e), m);
    } else {
        assert(2 * h + 1 == e);
        assert(pow(base, e) == base * pow(base, 2 * h)) by {
            reveal(pow);
        }
        vstd::arithmetic::div_mod::lemma_mul_mod_noop_general(acc * base, pow(square, h), m);
        assert((acc * base) * pow(square, h) == acc * pow(base, e)) by (nonlinear_arith)
            requires
                pow(square, h) == pow(base, 2 * h),
                pow(base, e) == base * pow(base, 2 * h),
        ;
    }
    lemma_wrap32_congruent(acc2 * pow(base2, h), acc * pow(base, e));
}

/// `a` raised to the non-negative exponent `b`, wrapped.
pub fn pow_wrapping(a: i32, b: i32) -> (r: i32)
    requires
        b >= 0,
    ensures
        r == wrap32(pow(a as int, b as nat)),
{
    let mut acc: i32 = 1;
    let mut base: i32 = a;
    let mut e: u32 = b as u32;
    assert(1 * pow(a as int, b as nat) == pow(a as int, b as nat));
    while e > 0
        invariant
            wrap32(acc * pow(base as int, e as nat)) == wrap32(pow(a as int, b as nat)),
        decreases e,
    {
        let ghost old_acc = acc as int;
        let ghost old_base = base as int;
        let ghost old_e = e as nat;
        if e % 2 == 1 {
            acc = acc.wrapping_mul(base);
            proof {
                lemma_wrap32_remainder(old_acc * old_base);
            }
        }
        base = base.wrapping_mul(base);
        e = e / 2;
        proof {
            lemma_wrap32_remainder(old_base * old_base);
            lemma_square_and_multiply(old_acc, old_base, old_e, acc as int, base as int);
        }
    }
    proof {
        vstd::arithmetic::power::lemma_pow0(base as int);
        assert(acc * 1 == acc);
    }
    acc
}

} // verus!
