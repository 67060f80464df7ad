//! Strict monotonicity of the tick-to-price mapping.
//!
//! Each table entry exceeds the floored product of all entries below it by a
//! margin far wider than anything the later floor-truncations can erode, so
//! a larger tick magnitude always yields a strictly larger table product --
//! and enough of a relative gap that the fixed-point reciprocal taken for
//! negative ticks is strictly ordered as well.
//!
//! The working relation is multiplicative: `big * 10^9 >= small * RATIO`
//! with `RATIO = 10^9 + 49998`, saying the larger chain exceeds the smaller
//! by at least half a tick step of relative growth. A slack term pays for
//! the one unit each floor-multiplication step may lose.

use vstd::prelude::*;

use vstd::arithmetic::div_mod::{
    lemma_div_is_ordered, lemma_div_multiples_vanish, lemma_div_pos_is_pos,
    lemma_fundamental_div_mod, lemma_mod_bound,
};
use vstd::arithmetic::mul::{lemma_mul_inequality, lemma_mul_nonnegative};

use crate::decimals::{FIXED_POINT_ONE, PRICE_ONE};
use crate::math::{
    lemma_price_chain_at_least_one, lemma_sqrt_price_at_zero, price_chain, sqrt_price_of_tick,
    tick_factor, tick_mask,
};
use crate::MAX_TICK;

verus! {

/// The scaled comparison ratio: one more tick of magnitude grows the chain
/// by at least `RATIO / 10^9`.
pub open spec fn ratio() -> int {
    1000049998
}

/// The table masks are the first eighteen powers of two.
proof fn lemma_tick_mask_is_shift(s: u32)
    requires
        s < 18,
    ensures
        tick_mask(s as int) == 1u32 << s,
{
    assert(1u32 << 0u32 == 0x1u32 && 1u32 << 1u32 == 0x2u32 && 1u32 << 2u32 == 0x4u32 && 1u32 << 3u32 == 0x8u32 && 1u32 << 4u32 == 0x10u32 && 1u32 << 5u32 == 0x20u32 && 1u32 << 6u32 == 0x40u32 && 1u32 << 7u32 == 0x80u32 && 1u32 << 8u32 == 0x100u32 && 1u32 << 9u32 == 0x200u32 && 1u32 << 10u32 == 0x400u32 && 1u32 << 11u32 == 0x800u32 && 1u32 << 12u32 == 0x1000u32 && 1u32 << 13u32 == 0x2000u32 && 1u32 << 14u32 == 0x4000u32 && 1u32 << 15u32 == 0x8000u32 && 1u32 << 16u32 == 0x1_0000u32 && 1u32 << 17u32 == 0x2_0000u32) by (bit_vector);
}

/// Every table factor is at least one fixed-point unit.
proof fn lemma_tick_factor_bounds(k: int)
    requires
        0 <= k < 18,
    ensures
        FIXED_POINT_ONE <= tick_factor(k),
{
}

/// The table walk with every bit set: the pointwise largest chain, and the
/// seed fact that each table entry beats the prefix below it by the
/// comparison ratio with the full slack prepaid.
proof fn lemma_chain_all_ones()
    ensures
        price_chain(0x3_ffffu32, 18) == 492128274533526656,
        forall|b: int| 0 <= b < 18 ==> tick_factor(b) * 1000000000
            >= #[trigger] price_chain(0x3_ffffu32, b) * ratio() + 18000000000,
{
    assert(0x3_ffffu32 & 0x1u32 != 0u32 && 0x3_ffffu32 & 0x2u32 != 0u32 && 0x3_ffffu32 & 0x4u32 != 0u32 && 0x3_ffffu32 & 0x8u32 != 0u32 && 0x3_ffffu32 & 0x10u32 != 0u32 && 0x3_ffffu32 & 0x20u32 != 0u32 && 0x3_ffffu32 & 0x40u32 != 0u32 && 0x3_ffffu32 & 0x80u32 != 0u32 && 0x3_ffffu32 & 0x100u32 != 0u32 && 0x3_ffffu32 & 0x200u32 != 0u32 && 0x3_ffffu32 & 0x400u32 != 0u32 && 0x3_ffffu32 & 0x800u32 != 0u32 && 0x3_ffffu32 & 0x1000u32 != 0u32 && 0x3_ffffu32 & 0x2000u32 != 0u32 && 0x3_ffffu32 & 0x4000u32 != 0u32 && 0x3_ffffu32 & 0x8000u32 != 0u32 && 0x3_ffffu32 & 0x1_0000u32 != 0u32 && 0x3_ffffu32 & 0x2_0000u32 != 0u32) by (bit_vector);
    assert(price_chain(0x3_ffffu32, 0) == 1000000000000);
    assert(price_chain(0x3_ffffu32, 1) == 1000049998750) by {
        assert(tick_mask(0) == 0x1 && tick_factor(0) == 1000049998750);
    }
    assert(price_chain(0x3_ffffu32, 2) == 1000150003749) by {
        assert(tick_mask(1) == 0x2 && tick_factor(1) == 1000100000000);
    }
    assert(price_chain(0x3_ffffu32, 3) == 1000350043751) by {
        assert(tick_mask(2) == 0x4 && tick_factor(2) == 1000200010000);
    }
    assert(price_chain(0x3_ffffu32, 4) == 1000750243793) by {
        assert(tick_mask(3) == 0x8 && tick_factor(3) == 1000400060004);
    }
    assert(price_chain(0x3_ffffu32, 5) == 1001551124254) by {
        assert(tick_mask(4) == 0x10 && tick_factor(4) == 1000800280056);
    }
    assert(price_chain(0x3_ffffu32, 6) == 1003154808475) by {
        assert(tick_mask(5) == 0x20 && tick_factor(5) == 1001601200560);
    }
    assert(price_chain(0x3_ffffu32, 7) == 1006369884488) by {
        assert(tick_mask(6) == 0x40 && tick_factor(6) == 1003204964963);
    }
    assert(price_chain(0x3_ffffu32, 8) == 1012830982157) by {
        assert(tick_mask(7) == 0x80 && tick_factor(7) == 1006420201726);
    }
    assert(price_chain(0x3_ffffu32, 9) == 1025877888466) by {
        assert(tick_mask(8) == 0x100 && tick_factor(8) == 1012881622442);
    }
    assert(price_chain(0x3_ffffu32, 10) == 1052478062002) by {
        assert(tick_mask(9) == 0x200 && tick_factor(9) == 1025929181080);
    }
    assert(price_chain(0x3_ffffu32, 11) == 1107765455115) by {
        assert(tick_mask(10) == 0x400 && tick_factor(10) == 1052530684591);
    }
    assert(price_chain(0x3_ffffu32, 12) == 1227205659229) by {
        assert(tick_mask(11) == 0x800 && tick_factor(11) == 1107820842005);
    }
    assert(price_chain(0x3_ffffu32, 13) == 1506109029850) by {
        assert(tick_mask(12) == 0x1000 && tick_factor(12) == 1227267017980);
    }
    assert(price_chain(0x3_ffffu32, 14) == 2268477825183) by {
        assert(tick_mask(13) == 0x2000 && tick_factor(13) == 1506184333421);
    }
    assert(price_chain(0x3_ffffu32, 15) == 5146248936504) by {
        assert(tick_mask(14) == 0x4000 && tick_factor(14) == 2268591246242);
    }
    assert(price_chain(0x3_ffffu32, 16) == 26485202277305) by {
        assert(tick_mask(15) == 0x8000 && tick_factor(15) == 5146506242525);
    }
    assert(price_chain(0x3_ffffu32, 17) == 701501012090856) by {
        assert(tick_mask(16) == 0x1_0000 && tick_factor(16) == 26486526504348);
    }
    assert(price_chain(0x3_ffffu32, 18) == 492128274533526656) by {
        assert(tick_mask(17) == 0x2_0000 && tick_factor(17) == 701536086265529);
    }
}

/// One floor-multiplication step keeps the scaled comparison, spending at
/// most one billionth-scaled unit of slack, and never shrinks either side.
proof fn lemma_ratio_step(c1: int, c2: int, f: int, s: int)
    requires
        0 <= c1,
        0 <= c2,
        FIXED_POINT_ONE <= f,
        0 <= s,
        c2 * 1000000000 >= c1 * ratio() + s,
    ensures
        (c2 * f / (FIXED_POINT_ONE as int)) * 1000000000
            >= (c1 * f / (FIXED_POINT_ONE as int)) * ratio() + s - 1000000000,
        c1 <= c1 * f / (FIXED_POINT_ONE as int),
        c2 <= c2 * f / (FIXED_POINT_ONE as int),
{
    let fp = FIXED_POINT_ONE as int;
    let c1p = c1 * f / fp;
    let c2p = c2 * f / fp;
    lemma_mul_nonnegative(c1, f);
    lemma_mul_nonnegative(c2, f);
    lemma_fundamental_div_mod(c1 * f, fp);
    lemma_fundamental_div_mod(c2 * f, fp);
    lemma_mod_bound(c1 * f, fp);
    lemma_mod_bound(c2 * f, fp);
    assert(c2p * fp >= c2 * f - fp + 1);
    assert(c1p * fp <= c1 * f);
    assert(c2p * 1000000000 * fp >= c1p * ratio() * fp + (s - 1000000000) * fp)
        by (nonlinear_arith)
        requires
            c2p * fp >= c2 * f - fp + 1,
            c1p * fp <= c1 * f,
            c2 * 1000000000 >= c1 * ratio() + s,
            FIXED_POINT_ONE <= f,
            fp == FIXED_POINT_ONE as int,
            0 <= s,
            0 <= c1,
            ratio() == 1000049998,
    ;
    assert(c2p * 1000000000 >= c1p * ratio() + s - 1000000000) by (nonlinear_arith)
        requires
            c2p * 1000000000 * fp >= c1p * ratio() * fp + (s - 1000000000) * fp,
            fp > 0,
    ;
    assert(c1 * fp <= c1 * f) by (nonlinear_arith)
        requires 0 <= c1, fp <= f;
    lemma_div_is_ordered(c1 * fp, c1 * f, fp);
    lemma_div_multiples_vanish(c1, fp);
    assert(c1 * fp == fp * c1);
    assert(c2 * fp <= c2 * f) by (nonlinear_arith)
        requires 0 <= c2, fp <= f;
    lemma_div_is_ordered(c2 * fp, c2 * f, fp);
    lemma_div_multiples_vanish(c2, fp);
    assert(c2 * fp == fp * c2);
}

/// No chain outgrows the all-bits-set chain.
proof fn lemma_chain_upper(t: u32, k: int)
    requires
        0 <= k <= 18,
    ensures
        price_chain(t, k) <= price_chain(0x3_ffffu32, k),
    decreases k,
{
    if k > 0 {
        lemma_chain_upper(t, k - 1);
        lemma_price_chain_at_least_one(t, k - 1);
        lemma_price_chain_at_least_one(0x3_ffffu32, k - 1);
        lemma_tick_factor_bounds(k - 1);
        let fp = FIXED_POINT_ONE as int;
        let a = price_chain(t, k - 1);
        let b = price_chain(0x3_ffffu32, k - 1);
        let f = tick_factor(k - 1);
        let s = (k - 1) as u32;
        lemma_tick_mask_is_shift(s);
        assert(0x3_ffffu32 & (1u32 << s) != 0u32) by (bit_vector)
            requires s < 18u32;
        assert(a * f / fp <= b * f / fp) by {
            lemma_mul_inequality(a, b, f);
            assert(a * f == f * a && b * f == f * b);
            lemma_div_is_ordered(a * f, b * f, fp);
        }
        assert(a <= b * f / fp) by {
            assert(b * fp <= b * f) by (nonlinear_arith)
                requires 0 <= b, fp <= f;
            lemma_div_is_ordered(b * fp, b * f, fp);
            lemma_div_multiples_vanish(b, fp);
            assert(b * fp == fp * b);
        }
    }
}

/// Once two chains agree on all remaining bits, the scaled comparison
/// survives the rest of the walk on the prepaid slack.
proof fn lemma_chain_suffix_ratio(t1: u32, t2: u32, k: int)
    requires
        0 <= k <= 18,
        t1 >> (k as u32) == t2 >> (k as u32),
        price_chain(t2, k) * 1000000000
            >= price_chain(t1, k) * ratio() + (18 - k) * 1000000000,
    ensures
        price_chain(t2, 18) * 1000000000 >= price_chain(t1, 18) * ratio(),
    decreases 18 - k,
{
    if k < 18 {
        let s = k as u32;
        let s1: u32 = (k + 1) as u32;
        assert(t1 >> s1 == t2 >> s1 && (t1 & (1u32 << s)) == (t2 & (1u32 << s)))
            by (bit_vector)
            requires t1 >> s == t2 >> s, s < 18u32, s1 == s + 1;
        lemma_tick_mask_is_shift(s);
        lemma_price_chain_at_least_one(t1, k);
        lemma_price_chain_at_least_one(t2, k);
        lemma_tick_factor_bounds(k);
        if t1 & tick_mask(k) != 0 {
            lemma_ratio_step(
                price_chain(t1, k),
                price_chain(t2, k),
                tick_factor(k),
                (18 - k) * 1000000000,
            );
        }
        lemma_chain_suffix_ratio(t1, t2, k + 1);
    }
}

/// A larger tick magnitude gives a chain larger by the comparison ratio:
/// at the highest differing bit the full table entry beats the floored
/// product of everything below it, and the shared suffix keeps the margin.
proof fn lemma_chain_ratio(t1: u32, t2: u32, k: int)
    requires
        t1 < t2,
        t2 < 0x4_0000,
        0 <= k <= 18,
        t1 >> (k as u32) == t2 >> (k as u32),
    ensures
        price_chain(t2, 18) * 1000000000 >= price_chain(t1, 18) * ratio(),
    decreases k,
{
    assert(k > 0) by {
        if k == 0 {
            assert(t1 == t2) by (bit_vector)
                requires t1 >> 0u32 == t2 >> 0u32;
        }
    }
    let s = (k - 1) as u32;
    let s1: u32 = k as u32;
    assert({
        &&& ((t1 >> s) & 1u32 == (t2 >> s) & 1u32 ==> t1 >> s == t2 >> s)
        &&& !((t1 >> s) & 1u32 == 1u32 && (t2 >> s) & 1u32 == 0u32)
        &&& ((t1 >> s) & 1u32 == 0u32 && (t2 >> s) & 1u32 == 1u32
            ==> (t1 & (1u32 << s) == 0u32 && t2 & (1u32 << s) != 0u32))
        &&& ((t1 >> s) & 1u32 == 0u32 || (t1 >> s) & 1u32 == 1u32)
        &&& ((t2 >> s) & 1u32 == 0u32 || (t2 >> s) & 1u32 == 1u32)
    }) by (bit_vector)
        requires t1 >> s1 == t2 >> s1, t1 < t2, s < 18u32, s1 == s + 1;
    if (t1 >> s) & 1u32 == (t2 >> s) & 1u32 {
        lemma_chain_ratio(t1, t2, k - 1);
    } else {
        // the highest differing bit: set in the larger magnitude only
        lemma_tick_mask_is_shift(s);
        lemma_chain_upper(t1, k - 1);
        lemma_price_chain_at_least_one(t1, k - 1);
        lemma_price_chain_at_least_one(t2, k - 1);
        lemma_tick_factor_bounds(k - 1);
        lemma_chain_all_ones();
        let fp = FIXED_POINT_ONE as int;
        let f = tick_factor(k - 1);
        let c1 = price_chain(t1, k);
        let c2 = price_chain(t2, k);
        assert(c1 == price_chain(t1, k - 1));
        assert(c2 == price_chain(t2, k - 1) * f / fp);
        // the multiplied side clears the whole table entry
        assert(fp * f <= price_chain(t2, k - 1) * f) by (nonlinear_arith)
            requires fp <= price_chain(t2, k - 1), 0 <= f;
        lemma_div_is_ordered(fp * f, price_chain(t2, k - 1) * f, fp);
        lemma_div_multiples_vanish(f, fp);
        assert(c2 >= f);
        // the bare side stays below the all-ones prefix
        assert(f * 1000000000 >= price_chain(0x3_ffffu32, k - 1) * ratio() + 18000000000);
        assert(price_chain(0x3_ffffu32, k - 1) * ratio() >= c1 * ratio()) by {
            lemma_mul_inequality(c1, price_chain(0x3_ffffu32, k - 1), ratio());
        }
        assert(c2 * 1000000000 >= f * 1000000000) by {
            lemma_mul_inequality(f, c2, 1000000000);
        }
        assert(c2 * 1000000000 >= c1 * ratio() + (18 - k) * 1000000000);
        lemma_chain_suffix_ratio(t1, t2, k);
    }
}

/// The chain of a strictly larger tick magnitude is strictly larger, by at
/// least the comparison ratio.
proof fn lemma_chain_of_ticks(a: int, b: int)
    requires
        0 <= a < b <= MAX_TICK,
    ensures
        price_chain(b as u32, 18) * 1000000000 >= price_chain(a as u32, 18) * ratio(),
        price_chain(b as u32, 18) > price_chain(a as u32, 18),
        FIXED_POINT_ONE <= price_chain(a as u32, 18),
        price_chain(b as u32, 18) <= 492128274533526656,
{
    let t1 = a as u32;
    let t2 = b as u32;
    assert(t1 >> 18u32 == t2 >> 18u32) by (bit_vector)
        requires t1 < 0x4_0000u32, t2 < 0x4_0000u32;
    lemma_chain_ratio(t1, t2, 18);
    lemma_price_chain_at_least_one(t1, 18);
    lemma_chain_upper(t2, 18);
    lemma_chain_all_ones();
    let c1 = price_chain(t1, 18);
    let c2 = price_chain(t2, 18);
    assert(c2 > c1) by (nonlinear_arith)
        requires
            c2 * 1000000000 >= c1 * ratio(),
            c1 >= FIXED_POINT_ONE,
            ratio() == 1000049998,
    ;
}

/// Fixed-point reciprocals of ratio-separated chains are strictly ordered:
/// the relative gap is far wider than one quotient unit.
proof fn lemma_recip_strict(c1: int, c2: int)
    requires
        FIXED_POINT_ONE <= c1,
        c2 <= 492128274533526656,
        c2 * 1000000000 >= c1 * ratio(),
    ensures
        (FIXED_POINT_ONE * FIXED_POINT_ONE) as int / c2
            < (FIXED_POINT_ONE * FIXED_POINT_ONE) as int / c1,
{
    let k = (FIXED_POINT_ONE * FIXED_POINT_ONE) as int;
    let g = c2 - c1;
    assert(g * 1000000000 >= c1 * 49998) by (nonlinear_arith)
        requires c2 * 1000000000 >= c1 * ratio(), g == c2 - c1, ratio() == 1000049998;
    assert(g >= 1) by (nonlinear_arith)
        requires g * 1000000000 >= c1 * 49998, c1 >= FIXED_POINT_ONE;
    let q = k / c2;
    lemma_fundamental_div_mod(k, c2);
    lemma_mod_bound(k, c2);
    assert(q * c2 >= k - c2 + 1) by (nonlinear_arith)
        requires k == c2 * q + k % c2, k % c2 <= c2 - 1;
    lemma_div_pos_is_pos(k, c2);
    // (k - c2) * g covers c1 * c2: the 49998-per-billion share of c1 in g,
    // scaled by nearly the full reciprocal range, dwarfs any chain value
    assert((k - c2) * g * 1000000000 >= (k - 492128274533526656) * (c1 * 49998)) by (nonlinear_arith)
        requires
            g * 1000000000 >= c1 * 49998,
            c2 <= 492128274533526656,
            k == (FIXED_POINT_ONE * FIXED_POINT_ONE) as int,
            0 <= g,
            0 <= c1 * 49998,
    ;
    assert((k - 492128274533526656) * (c1 * 49998) >= c1 * c2 * 1000000000) by (nonlinear_arith)
        requires
            c2 <= 492128274533526656,
            0 <= c1,
            k == (FIXED_POINT_ONE * FIXED_POINT_ONE) as int,
    ;
    assert((k - c2) * g >= c1 * c2) by (nonlinear_arith)
        requires (k - c2) * g * 1000000000 >= c1 * c2 * 1000000000;
    assert(q * g >= c1) by (nonlinear_arith)
        requires
            q * c2 >= k - c2 + 1,
            (k - c2) * g >= c1 * c2,
            0 <= g,
            FIXED_POINT_ONE <= c2 - g,
            c2 > 0,
    ;
    assert((q + 1) * c1 <= k) by (nonlinear_arith)
        requires
            q * c2 >= k - c2 + 1,
            q * g >= c1,
            g == c2 - c1,
            0 <= q,
            k == c2 * q + k % c2,
            0 <= k % c2,
    ;
    assert(k / c1 >= q + 1) by {
        lemma_div_is_ordered((q + 1) * c1, k, c1);
        lemma_div_multiples_vanish(q + 1, c1);
        vstd::arithmetic::mul::lemma_mul_is_commutative(q + 1, c1);
    }
}

/// For every pair of valid ticks, a larger tick has a strictly larger
/// square-root price.
pub proof fn lemma_sqrt_price_strictly_increasing(t1: int, t2: int)
    requires
        -MAX_TICK <= t1 < t2 <= MAX_TICK,
    ensures
        sqrt_price_of_tick(t1) < sqrt_price_of_tick(t2),
{
    let fp = FIXED_POINT_ONE as int;
    let k = (FIXED_POINT_ONE * FIXED_POINT_ONE) as int;
    if 0 <= t1 {
        lemma_chain_of_ticks(t1, t2);
        let c1 = price_chain(t1 as u32, 18);
        let c2 = price_chain(t2 as u32, 18);
        assert(c1 * fp < c2 * fp) by (nonlinear_arith)
            requires c1 < c2, fp > 0;
    } else if t2 <= 0 {
        // both prices are fixed-point reciprocals; magnitudes swap the order
        lemma_chain_of_ticks(-t2, -t1);
        let c_small = price_chain((-t2) as u32, 18);
        let c_big = price_chain((-t1) as u32, 18);
        lemma_recip_strict(c_small, c_big);
        let q_big = k / c_big;
        let q_small = k / c_small;
        assert(q_big * fp < q_small * fp) by (nonlinear_arith)
            requires q_big < q_small, fp > 0;
        assert(sqrt_price_of_tick(t1) == q_big * fp);
        if t2 == 0 {
            // at tick zero the reciprocal form coincides with the direct one
            lemma_sqrt_price_at_zero();
            lemma_price_chain_at_least_one((-t2) as u32, 18);
            assert((-t2) as u32 == 0u32);
            assert(c_small == fp) by {
                assert(price_chain(0u32, 18) * fp == sqrt_price_of_tick(0));
                assert(price_chain(0u32, 18) * fp == PRICE_ONE as int ==> price_chain(0u32, 18) == fp)
                    by (nonlinear_arith)
                    requires fp == FIXED_POINT_ONE as int;
            }
            assert(q_small == fp) by {
                assert(k == fp * fp);
                lemma_div_multiples_vanish(fp, fp);
            }
            assert(sqrt_price_of_tick(0) == fp * fp);
            assert(q_small * fp == fp * fp);
        } else {
            assert(sqrt_price_of_tick(t2) == q_small * fp);
        }
    } else {
        // t1 below zero, t2 above: compare both against tick zero
        lemma_sqrt_price_at_zero();
        lemma_chain_of_ticks(0, t2);
        let c2 = price_chain(t2 as u32, 18);
        assert(price_chain(0u32, 18) == fp) by {
            lemma_price_chain_at_least_one(0u32, 18);
            assert(price_chain(0u32, 18) * fp == sqrt_price_of_tick(0));
            assert(price_chain(0u32, 18) * fp == PRICE_ONE as int ==> price_chain(0u32, 18) == fp)
                by (nonlinear_arith)
                requires fp == FIXED_POINT_ONE as int;
        }
        assert(sqrt_price_of_tick(t2) == c2 * fp);
        assert(c2 * fp > fp * fp) by (nonlinear_arith)
            requires c2 > fp, fp > 0;
        lemma_chain_of_ticks(0, -t1);
        let c_big = price_chain((-t1) as u32, 18);
        lemma_recip_strict(fp, c_big);
        let q_big = k / c_big;
        let q_zero = k / fp;
        assert(q_zero == fp) by {
            assert(k == fp * fp);
            lemma_div_multiples_vanish(fp, fp);
        }
        assert(sqrt_price_of_tick(t1) == q_big * fp);
        assert(q_big * fp < fp * fp) by (nonlinear_arith)
            requires q_big < fp, fp > 0;
        assert(sqrt_price_of_tick(t1) < PRICE_ONE as int);
        assert(fp * fp == PRICE_ONE as int);
    }
}

} // verus!
