//! Double-width (256-bit) unsigned arithmetic on pairs of `u128` limbs.
//!
//! Products of two 128-bit scaled decimals exceed 128 bits, so every
//! multiply-then-divide in the engine routes through these helpers: an exact
//! widening multiply and an exact long division of a two-limb value by a
//! 128-bit divisor.

use vstd::prelude::*;

use vstd::arithmetic::div_mod::{
    lemma_fundamental_div_mod, lemma_fundamental_div_mod_converse,
};
use vstd::arithmetic::power2::{lemma2_to64, lemma_pow2_adds, lemma_pow2_pos, pow2};

verus! {

/// `2^64`, the limb-splitting radix for the widening multiply.
pub const RADIX64: u128 = 0x1_0000_0000_0000_0000;

/// `2^127`, the weight of the top bit of a `u128` limb.
pub const TOP127: u128 = 0x8000_0000_0000_0000_0000_0000_0000_0000;

/// The value of a two-limb number: `hi * 2^128 + lo`.
pub open spec fn wval(hi: int, lo: int) -> int {
    hi * 0x1_0000_0000_0000_0000_0000_0000_0000_0000 + lo
}

/// Exact widening multiply: the two returned limbs hold `a * b`.
pub fn mul_wide(a: u128, b: u128) -> (r: (u128, u128))
    ensures
        wval(r.0 as int, r.1 as int) == a * b,
{
    let ah = a / RADIX64;
    let al = a % RADIX64;
    let bh = b / RADIX64;
    let bl = b % RADIX64;
    proof {
        assert(al * bl <= 0xffff_ffff_ffff_ffff * 0xffff_ffff_ffff_ffff
            && al * bh <= 0xffff_ffff_ffff_ffff * 0xffff_ffff_ffff_ffff
            && ah * bl <= 0xffff_ffff_ffff_ffff * 0xffff_ffff_ffff_ffff
            && ah * bh <= 0xffff_ffff_ffff_ffff * 0xffff_ffff_ffff_ffff)
            by (nonlinear_arith)
            requires
                al <= 0xffff_ffff_ffff_ffff,
                bl <= 0xffff_ffff_ffff_ffff,
                ah <= 0xffff_ffff_ffff_ffff,
                bh <= 0xffff_ffff_ffff_ffff,
        ;
    }
    let p0 = al * bl;
    let p1 = al * bh;
    let p2 = ah * bl;
    let p3 = ah * bh;
    let t = p1 + p0 / RADIX64;
    let u = p2 + t % RADIX64;
    let lo = (u % RADIX64) * RADIX64 + p0 % RADIX64;
    let hi = p3 + t / RADIX64 + u / RADIX64;
    proof {
        assert(a * b == p3 * (0x1_0000_0000_0000_0000_0000_0000_0000_0000 as int)
            + p1 * 0x1_0000_0000_0000_0000 + p2 * 0x1_0000_0000_0000_0000 + p0)
            by (nonlinear_arith)
            requires
                a == ah * 0x1_0000_0000_0000_0000 + al,
                b == bh * 0x1_0000_0000_0000_0000 + bl,
                p0 == al * bl,
                p1 == al * bh,
                p2 == ah * bl,
                p3 == ah * bh,
        ;
    }
    (hi, lo)
}

/// Exact long division of a two-limb value by a nonzero `u128` divisor:
/// returns the quotient limbs and the remainder.
pub fn div_wide(n_hi: u128, n_lo: u128, d: u128) -> (r: (u128, u128, u128))
    requires
        d > 0,
    ensures
        wval(r.0 as int, r.1 as int) == wval(n_hi as int, n_lo as int) / (d as int),
        r.2 == wval(n_hi as int, n_lo as int) % (d as int),
{
    let ghost n: int = wval(n_hi as int, n_lo as int);
    let mut q_hi: u128 = 0;
    let mut q_lo: u128 = 0;
    let mut rem: u128 = 0;
    let mut x_hi = n_hi;
    let mut x_lo = n_lo;
    let mut i: usize = 0;
    proof {
        lemma_pow2_256_facts();
        assert(0 <= n < pow2(256));
        vstd::arithmetic::div_mod::lemma_basic_div(n, pow2(256) as int);
        vstd::arithmetic::div_mod::lemma_small_mod(n as nat, pow2(256));
        assert(pow2(0) == 1) by { lemma2_to64(); }
        assert(wval(0int, 0int) * d == 0) by (nonlinear_arith);
    }
    while i < 256
        invariant
            i <= 256,
            d > 0,
            rem < d,
            n == wval(n_hi as int, n_lo as int),
            0 <= n < pow2(256),
            wval(q_hi as int, q_lo as int) * d + rem == n / (pow2((256 - i) as nat) as int),
            wval(x_hi as int, x_lo as int) == (n % (pow2((256 - i) as nat) as int)) * pow2(i as nat),
            wval(q_hi as int, q_lo as int) < pow2(i as nat),
        decreases 256 - i,
    {
        let ghost w2: int = pow2((255 - i) as nat) as int;
        let ghost m: int = n % (pow2((256 - i) as nat) as int);
        let ghost b: int = m / w2;
        let ghost q_old: int = wval(q_hi as int, q_lo as int);
        let ghost r_old: int = rem as int;
        let bit: u128 = x_hi / TOP127;
        proof {
            lemma_pow2_256_facts();
            lemma_div_step_setup(n, i as nat);
            lemma_bit_extract(n, i as nat, x_hi, x_lo);
            lemma_div_invariant_step(n, i as nat, q_old, r_old, b, d as int);
            // the high quotient limb has room for the shift
            if i < 128 {
                vstd::arithmetic::power2::lemma_pow2_strictly_increases(i as nat, 128);
                assert(q_hi == 0) by (nonlinear_arith)
                    requires
                        q_hi * 0x1_0000_0000_0000_0000_0000_0000_0000_0000 + q_lo
                            < 0x1_0000_0000_0000_0000_0000_0000_0000_0000,
                        q_hi >= 0,
                        q_lo >= 0,
                ;
            } else {
                if (i as nat) < 255 {
                    vstd::arithmetic::power2::lemma_pow2_strictly_increases(i as nat, 255);
                }
                assert(wval(q_hi as int, q_lo as int) < pow2(255));
                assert(q_hi < TOP127);
            }
        }
        x_hi = (x_hi % TOP127) * 2 + x_lo / TOP127;
        x_lo = (x_lo % TOP127) * 2;
        q_hi = q_hi * 2 + q_lo / TOP127;
        q_lo = (q_lo % TOP127) * 2;
        proof {
            assert(wval(q_hi as int, q_lo as int) == 2 * q_old);
        }
        if rem >= TOP127 {
            // the shifted remainder exceeds any u128 divisor, so the next
            // quotient bit is 1; compute 2*rem + bit - d without overflow
            proof {
                assert(2 * r_old + b >= d);
            }
            rem = rem - (d - rem) + bit;
            q_lo = q_lo + 1;
        } else {
            let t = rem * 2 + bit;
            if t >= d {
                rem = t - d;
                q_lo = q_lo + 1;
            } else {
                rem = t;
            }
        }
        i = i + 1;
    }
    proof {
        assert(pow2(0) == 1) by { lemma2_to64(); }
        vstd::arithmetic::div_mod::lemma_div_basics(n);
        assert(wval(q_hi as int, q_lo as int) * d + rem == n);
        lemma_fundamental_div_mod_converse(n, d as int, wval(q_hi as int, q_lo as int), rem as int);
    }
    (q_hi, q_lo, rem)
}

/// Rounded-up division: the least integer at or above `n / d`.
pub open spec fn div_ceil(n: int, d: int) -> int {
    (n + d - 1) / d
}

/// `floor(a * b / d)`, or `None` when the quotient does not fit in `u128`.
pub fn mul_div_floor(a: u128, b: u128, d: u128) -> (r: Option<u128>)
    requires
        d > 0,
    ensures
        r is Some <==> a * b / (d as int) <= u128::MAX,
        r matches Some(v) ==> v == a * b / (d as int),
{
    let (p_hi, p_lo) = mul_wide(a, b);
    let (q_hi, q_lo, _rem) = div_wide(p_hi, p_lo, d);
    if q_hi == 0 {
        Some(q_lo)
    } else {
        proof {
            assert(wval(q_hi as int, q_lo as int) > u128::MAX);
        }
        None
    }
}

/// `ceil(a * b / d)`, or `None` when the quotient does not fit in `u128`.
pub fn mul_div_ceil(a: u128, b: u128, d: u128) -> (r: Option<u128>)
    requires
        d > 0,
    ensures
        r is Some <==> div_ceil((a * b) as int, d as int) <= u128::MAX,
        r matches Some(v) ==> v == div_ceil((a * b) as int, d as int),
{
    let (p_hi, p_lo) = mul_wide(a, b);
    let (q_hi, q_lo, rem) = div_wide(p_hi, p_lo, d);
    proof {
        lemma_div_ceil_adjust((a * b) as int, d as int);
        assert((a * b) as int % (d as int) == rem);
    }
    if q_hi != 0 {
        proof {
            assert(wval(q_hi as int, q_lo as int) > u128::MAX);
        }
        None
    } else if rem == 0 {
        Some(q_lo)
    } else if q_lo == u128::MAX {
        None
    } else {
        Some(q_lo + 1)
    }
}

/// Rounded-up division equals the quotient plus one exactly when the
/// remainder is nonzero.
pub proof fn lemma_div_ceil_adjust(n: int, d: int)
    requires
        n >= 0,
        d > 0,
    ensures
        div_ceil(n, d) == n / d + (if n % d == 0 { 0int } else { 1int }),
{
    let q = n / d;
    let r = n % d;
    lemma_fundamental_div_mod(n, d);
    if r == 0 {
        assert(n + d - 1 == q * d + (d - 1)) by (nonlinear_arith)
            requires n == d * q + r, r == 0;
        lemma_fundamental_div_mod_converse(n + d - 1, d, q, d - 1);
    } else {
        assert(0 <= r - 1 < d);
        assert(n + d - 1 == (q + 1) * d + (r - 1)) by (nonlinear_arith)
            requires n == d * q + r;
        lemma_fundamental_div_mod_converse(n + d - 1, d, q + 1, r - 1);
    }
}

/// `pow2` values used to tie the two-limb representation to the integers.
proof fn lemma_pow2_256_facts()
    ensures
        pow2(127) == TOP127,
        pow2(128) == 0x1_0000_0000_0000_0000_0000_0000_0000_0000,
        pow2(255) == pow2(127) * pow2(128),
        pow2(256) == pow2(128) * pow2(128),
        pow2(256) > 0,
{
    lemma2_to64();
    vstd::arithmetic::power2::lemma2_to64_rest();
    lemma_pow2_adds(63, 64);
    lemma_pow2_adds(64, 64);
    lemma_pow2_adds(127, 128);
    lemma_pow2_adds(128, 128);
    lemma_pow2_pos(256);
}

/// Relates the prefix of the dividend at step `i` to the one at step `i + 1`.
proof fn lemma_div_step_setup(n: int, i: nat)
    requires
        i < 256,
        0 <= n < pow2(256),
    ensures
        pow2((256 - i) as nat) == 2 * pow2((255 - i) as nat),
        pow2((i + 1) as nat) == 2 * pow2(i),
        pow2((255 - i) as nat) > 0,
        pow2(i) > 0,
        (n % (pow2((256 - i) as nat) as int)) / (pow2((255 - i) as nat) as int) < 2,
{
    vstd::arithmetic::power2::lemma_pow2_unfold((256 - i) as nat);
    vstd::arithmetic::power2::lemma_pow2_unfold((i + 1) as nat);
    lemma_pow2_pos((255 - i) as nat);
    lemma_pow2_pos(i);
    let w2 = pow2((255 - i) as nat) as int;
    let m = n % (2 * w2);
    assert(0 <= m < 2 * w2) by (nonlinear_arith)
        requires w2 > 0, m == n % (2 * w2);
    assert(m / w2 < 2) by (nonlinear_arith)
        requires w2 > 0, 0 <= m < 2 * w2;
}

/// The top bit of the shifted dividend register equals the next dividend bit.
proof fn lemma_bit_extract(n: int, i: nat, x_hi: u128, x_lo: u128)
    requires
        i < 256,
        0 <= n < pow2(256),
        wval(x_hi as int, x_lo as int) == (n % (pow2((256 - i) as nat) as int)) * pow2(i),
    ensures
        x_hi / TOP127
            == (n % (pow2((256 - i) as nat) as int)) / (pow2((255 - i) as nat) as int),
        wval((x_hi % TOP127) * 2 + x_lo / TOP127, (x_lo % TOP127) * 2)
            == (n % (pow2((255 - i) as nat) as int)) * pow2((i + 1) as nat),
{
    lemma_pow2_256_facts();
    lemma_div_step_setup(n, i);
    let w2 = pow2((255 - i) as nat) as int;
    let v = pow2(i) as int;
    let m = n % (2 * w2);
    let b = m / w2;
    let m2 = m % w2;
    lemma_fundamental_div_mod(m, w2);
    assert(m == b * w2 + m2) by {
        vstd::arithmetic::mul::lemma_mul_is_commutative(w2, b);
    }
    assert(0 <= m2 < w2) by (nonlinear_arith)
        requires w2 > 0, m2 == m % w2;
    assert(0 <= b <= 1);
    assert(wval(x_hi as int, x_lo as int) == m * v);
    // w2 * v == 2^255
    assert(w2 * v == pow2(255)) by {
        lemma_pow2_adds((255 - i) as nat, i);
    }
    let x = wval(x_hi as int, x_lo as int);
    assert(x == b * (w2 * v) + m2 * v) by (nonlinear_arith)
        requires x == m * v, m == b * w2 + m2;
    assert(m2 * v < w2 * v) by (nonlinear_arith)
        requires m2 < w2, v > 0;
    assert(m2 * v >= 0) by (nonlinear_arith)
        requires m2 >= 0, v > 0;
    let p255 = pow2(127) * 0x1_0000_0000_0000_0000_0000_0000_0000_0000;
    // decompose the limbs against the top bit
    assert(x == (x_hi / TOP127) * p255
        + ((x_hi % TOP127) * 0x1_0000_0000_0000_0000_0000_0000_0000_0000 + x_lo));
    assert((x_hi % TOP127) * 0x1_0000_0000_0000_0000_0000_0000_0000_0000 + x_lo < p255);
    assert(x_hi / TOP127 <= 1);
    // both decompositions of x against 2^255 agree
    assert(x_hi / TOP127 == b && (x_hi % TOP127)
        * 0x1_0000_0000_0000_0000_0000_0000_0000_0000 + x_lo == m2 * v) by {
        if x_hi / TOP127 == b {
        } else if x_hi / TOP127 == 0 && b == 1 {
            assert(x < p255);
            assert(b * (w2 * v) + m2 * v >= p255);
            assert(false);
        } else {
            assert(x_hi / TOP127 == 1 && b == 0);
            assert(x >= p255);
            assert(b * (w2 * v) + m2 * v < p255);
            assert(false);
        }
    }
    // the shifted register holds m2 * (2 v)
    assert(wval((x_hi % TOP127) * 2 + x_lo / TOP127, (x_lo % TOP127) * 2)
        == 2 * ((x_hi % TOP127) * 0x1_0000_0000_0000_0000_0000_0000_0000_0000 + x_lo));
    assert(2 * (m2 * v) == m2 * (2 * v)) by (nonlinear_arith);
    // n % w2 == m2
    lemma_fundamental_div_mod(n, 2 * w2);
    assert(n == (n / (2 * w2)) * (2 * w2) + m);
    assert(n == (2 * (n / (2 * w2)) + b) * w2 + m2) by (nonlinear_arith)
        requires
            n == (n / (2 * w2)) * (2 * w2) + m,
            m == b * w2 + m2,
    ;
    lemma_fundamental_div_mod_converse(n, w2, 2 * (n / (2 * w2)) + b, m2);
    assert(n % w2 == m2);
}

/// One quotient/remainder step of the long division:
/// from `q*d + r == n / 2w2` to `(2q + b)*d + r' == n / w2`.
proof fn lemma_div_invariant_step(n: int, i: nat, q: int, r: int, b: int, d: int)
    requires
        i < 256,
        0 <= n < pow2(256),
        d > 0,
        0 <= r < d,
        0 <= b <= 1,
        q * d + r == n / (pow2((256 - i) as nat) as int),
        b == (n % (pow2((256 - i) as nat) as int)) / (pow2((255 - i) as nat) as int),
        q >= 0,
    ensures
        (2 * q + (if 2 * r + b >= d { 1int } else { 0int })) * d
            + (if 2 * r + b >= d { 2 * r + b - d } else { 2 * r + b })
            == n / (pow2((255 - i) as nat) as int),
        (if 2 * r + b >= d { 2 * r + b - d } else { 2 * r + b }) < d,
        2 * q + 1 < pow2((i + 1) as nat),
{
    lemma_div_step_setup(n, i);
    let w2 = pow2((255 - i) as nat) as int;
    let m = n % (2 * w2);
    let m2 = m % w2;
    lemma_fundamental_div_mod(m, w2);
    lemma_fundamental_div_mod(n, 2 * w2);
    assert(0 <= m2 < w2) by (nonlinear_arith)
        requires w2 > 0, m2 == m % w2;
    assert(n == (2 * (n / (2 * w2)) + b) * w2 + m2) by (nonlinear_arith)
        requires
            n == (n / (2 * w2)) * (2 * w2) + m,
            m == b * w2 + m2,
    ;
    lemma_fundamental_div_mod_converse(n, w2, 2 * (n / (2 * w2)) + b, m2);
    assert(n / w2 == 2 * (n / (2 * w2)) + b);
    assert(n / w2 == 2 * (q * d + r) + b);
    let qb: int = if 2 * r + b >= d { 1 } else { 0 };
    let r2: int = 2 * r + b - qb * d;
    assert((2 * q + qb) * d + r2 == 2 * (q * d + r) + b) by (nonlinear_arith)
        requires r2 == 2 * r + b - qb * d;
    assert(r2 < d);
    // quotient stays below the processed-bit budget
    assert(q < pow2(i)) by {
        assert(n / (2 * w2) < pow2(i)) by {
            assert(pow2((256 - i) as nat) * pow2(i) == pow2(256)) by {
                lemma_pow2_adds((256 - i) as nat, i);
            }
            assert(n / (2 * w2) < pow2(i)) by (nonlinear_arith)
                requires
                    w2 > 0,
                    0 <= n,
                    n < (2 * w2) * pow2(i),
                    2 * w2 == pow2((256 - i) as nat),
            ;
        }
        assert(q <= q * d + r) by (nonlinear_arith)
            requires d > 0, r >= 0, q >= 0;
    }
    assert(2 * q + 1 < 2 * pow2(i));
}

} // verus!
