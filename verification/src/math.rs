//! Tick/price geometry, liquidity conversion, and the range delta engine.
//!
//! Prices are square roots of the X/Y exchange rate at `Price` scale. A tick
//! index is mapped to a price by binary exponentiation over an append-only
//! table of per-bit multipliers; the usable tick range for a pool is bounded
//! both by the table's `MAX_TICK` and by `TICK_LIMIT` ticks of its spacing.

use vstd::prelude::*;

use crate::decimals::{
    FixedPoint, Liquidity, MathError, Price, TokenAmount, FIXED_POINT_ONE, LIQUIDITY_ONE,
    PRICE_ONE,
};
use crate::wide::{div_ceil, div_wide, lemma_div_ceil_adjust, mul_div_ceil, mul_div_floor, mul_wide, wval};
use vstd::arithmetic::div_mod::{
    lemma_div_denominator, lemma_div_is_ordered, lemma_div_multiples_vanish_quotient,
    lemma_div_pos_is_pos, lemma_fundamental_div_mod, lemma_fundamental_div_mod_converse,
};
use vstd::arithmetic::div_mod::lemma_mod_bound;
use vstd::arithmetic::mul::{lemma_mul_inequality, lemma_mul_nonnegative};
use crate::{MAX_TICK, ONE_LP_TOKEN, TICK_LIMIT};

verus! {

/// Bit mask selecting step `i` of the geometric tick table.
pub open spec fn tick_mask(i: int) -> u32 {
    if i == 0 {
        0x1
    } else if i == 1 {
        0x2
    } else if i == 2 {
        0x4
    } else if i == 3 {
        0x8
    } else if i == 4 {
        0x10
    } else if i == 5 {
        0x20
    } else if i == 6 {
        0x40
    } else if i == 7 {
        0x80
    } else if i == 8 {
        0x100
    } else if i == 9 {
        0x200
    } else if i == 10 {
        0x400
    } else if i == 11 {
        0x800
    } else if i == 12 {
        0x1000
    } else if i == 13 {
        0x2000
    } else if i == 14 {
        0x4000
    } else if i == 15 {
        0x8000
    } else if i == 16 {
        0x1_0000
    } else if i == 17 {
        0x2_0000
    } else {
        0
    }
}

/// Step `i` of the geometric tick table: `base^(2^i)` at fixed-point
/// scale, where `base` is the per-tick square-root price ratio. The table
/// is part of the compatibility surface and must never change.
pub open spec fn tick_factor(i: int) -> int {
    if i == 0 {
        1000049998750
    } else if i == 1 {
        1000100000000
    } else if i == 2 {
        1000200010000
    } else if i == 3 {
        1000400060004
    } else if i == 4 {
        1000800280056
    } else if i == 5 {
        1001601200560
    } else if i == 6 {
        1003204964963
    } else if i == 7 {
        1006420201726
    } else if i == 8 {
        1012881622442
    } else if i == 9 {
        1025929181080
    } else if i == 10 {
        1052530684591
    } else if i == 11 {
        1107820842005
    } else if i == 12 {
        1227267017980
    } else if i == 13 {
        1506184333421
    } else if i == 14 {
        2268591246242
    } else if i == 15 {
        5146506242525
    } else if i == 16 {
        26486526504348
    } else if i == 17 {
        701536086265529
    } else {
        0
    }
}

/// The fixed-point accumulator after the first `k` steps of the table walk
/// for tick magnitude `t`: each set bit multiplies in its table entry,
/// truncating to fixed-point scale.
pub open spec fn price_chain(t: u32, k: int) -> int
    decreases k,
{
    if k <= 0 {
        FIXED_POINT_ONE as int
    } else {
        let prev = price_chain(t, k - 1);
        if t & tick_mask(k - 1) != 0 {
            prev * tick_factor(k - 1) / (FIXED_POINT_ONE as int)
        } else {
            prev
        }
    }
}

/// The square-root price of a tick at `Price` scale: the table product for
/// the tick's magnitude, and its fixed-point reciprocal for negative ticks.
pub open spec fn sqrt_price_of_tick(tick: int) -> int {
    let t = (if tick >= 0 { tick } else { -tick }) as u32;
    let fp = price_chain(t, 18);
    if tick >= 0 {
        fp * (FIXED_POINT_ONE as int)
    } else {
        (FIXED_POINT_ONE * FIXED_POINT_ONE) as int / fp * (FIXED_POINT_ONE as int)
    }
}

/// One multiply step of the table walk stays within its precomputed bound.
proof fn lemma_price_chain_step(p: int, f: int, b0: int, b1: int)
    by (nonlinear_arith)
    requires
        FIXED_POINT_ONE <= p <= b0,
        FIXED_POINT_ONE <= f,
        b1 == b0 * f / (FIXED_POINT_ONE as int),
    ensures
        FIXED_POINT_ONE <= p * f / (FIXED_POINT_ONE as int) <= b1,
        p * f <= b0 * f,
{
}

/// Converts a tick index to its square-root price, exact bit-for-bit.
pub fn calculate_sqrt_price(tick_index: i32) -> (r: Price)
    requires
        -MAX_TICK <= tick_index <= MAX_TICK,
    ensures
        r.v == sqrt_price_of_tick(tick_index as int),
        r.v > 0,
{
    let t: u32 = (if tick_index >= 0 { tick_index } else { -tick_index }) as u32;
    let mut price = FixedPoint::from_integer(1);
    proof {
        assert(price.v == price_chain(t, 0));
    }
    if t & 0x1 != 0 {
        proof { lemma_price_chain_step(price.v as int, 1000049998750, 1000000000000, 1000049998750); }
        price = price.mul_floor(FixedPoint::new(1000049998750));
    }
    proof {
        assert(price.v == price_chain(t, 1) && FIXED_POINT_ONE <= price.v <= 1000049998750) by {
            assert(tick_mask(0) == 0x1 && tick_factor(0) == 1000049998750);
            assert(1000000000000 <= 1000049998750);
        }
    }
    if t & 0x2 != 0 {
        proof { lemma_price_chain_step(price.v as int, 1000100000000, 1000049998750, 1000150003749); }
        price = price.mul_floor(FixedPoint::new(1000100000000));
    }
    proof {
        assert(price.v == price_chain(t, 2) && FIXED_POINT_ONE <= price.v <= 1000150003749) by {
            assert(tick_mask(1) == 0x2 && tick_factor(1) == 1000100000000);
            assert(1000049998750 <= 1000150003749);
        }
    }
    if t & 0x4 != 0 {
        proof { lemma_price_chain_step(price.v as int, 1000200010000, 1000150003749, 1000350043751); }
        price = price.mul_floor(FixedPoint::new(1000200010000));
    }
    proof {
        assert(price.v == price_chain(t, 3) && FIXED_POINT_ONE <= price.v <= 1000350043751) by {
            assert(tick_mask(2) == 0x4 && tick_factor(2) == 1000200010000);
            assert(1000150003749 <= 1000350043751);
        }
    }
    if t & 0x8 != 0 {
        proof { lemma_price_chain_step(price.v as int, 1000400060004, 1000350043751, 1000750243793); }
        price = price.mul_floor(FixedPoint::new(1000400060004));
    }
    proof {
        assert(price.v == price_chain(t, 4) && FIXED_POINT_ONE <= price.v <= 1000750243793) by {
            assert(tick_mask(3) == 0x8 && tick_factor(3) == 1000400060004);
            assert(1000350043751 <= 1000750243793);
        }
    }
    if t & 0x10 != 0 {
        proof { lemma_price_chain_step(price.v as int, 1000800280056, 1000750243793, 1001551124254); }
        price = price.mul_floor(FixedPoint::new(1000800280056));
    }
    proof {
        assert(price.v == price_chain(t, 5) && FIXED_POINT_ONE <= price.v <= 1001551124254) by {
            assert(tick_mask(4) == 0x10 && tick_factor(4) == 1000800280056);
            assert(1000750243793 <= 1001551124254);
        }
    }
    if t & 0x20 != 0 {
        proof { lemma_price_chain_step(price.v as int, 1001601200560, 1001551124254, 1003154808475); }
        price = price.mul_floor(FixedPoint::new(1001601200560));
    }
    proof {
        assert(price.v == price_chain(t, 6) && FIXED_POINT_ONE <= price.v <= 1003154808475) by {
            assert(tick_mask(5) == 0x20 && tick_factor(5) == 1001601200560);
            assert(1001551124254 <= 1003154808475);
        }
    }
    if t & 0x40 != 0 {
        proof { lemma_price_chain_step(price.v as int, 1003204964963, 1003154808475, 1006369884488); }
        price = price.mul_floor(FixedPoint::new(1003204964963));
    }
    proof {
        assert(price.v == price_chain(t, 7) && FIXED_POINT_ONE <= price.v <= 1006369884488) by {
            assert(tick_mask(6) == 0x40 && tick_factor(6) == 1003204964963);
            assert(1003154808475 <= 1006369884488);
        }
    }
    if t & 0x80 != 0 {
        proof { lemma_price_chain_step(price.v as int, 1006420201726, 1006369884488, 1012830982157); }
        price = price.mul_floor(FixedPoint::new(1006420201726));
    }
    proof {
        assert(price.v == price_chain(t, 8) && FIXED_POINT_ONE <= price.v <= 1012830982157) by {
            assert(tick_mask(7) == 0x80 && tick_factor(7) == 1006420201726);
            assert(1006369884488 <= 1012830982157);
        }
    }
    if t & 0x100 != 0 {
        proof { lemma_price_chain_step(price.v as int, 1012881622442, 1012830982157, 1025877888466); }
        price = price.mul_floor(FixedPoint::new(1012881622442));
    }
    proof {
        assert(price.v == price_chain(t, 9) && FIXED_POINT_ONE <= price.v <= 1025877888466) by {
            assert(tick_mask(8) == 0x100 && tick_factor(8) == 1012881622442);
            assert(1012830982157 <= 1025877888466);
        }
    }
    if t & 0x200 != 0 {
        proof { lemma_price_chain_step(price.v as int, 1025929181080, 1025877888466, 1052478062002); }
        price = price.mul_floor(FixedPoint::new(1025929181080));
    }
    proof {
        assert(price.v == price_chain(t, 10) && FIXED_POINT_ONE <= price.v <= 1052478062002) by {
            assert(tick_mask(9) == 0x200 && tick_factor(9) == 1025929181080);
            assert(1025877888466 <= 1052478062002);
        }
    }
    if t & 0x400 != 0 {
        proof { lemma_price_chain_step(price.v as int, 1052530684591, 1052478062002, 1107765455115); }
        price = price.mul_floor(FixedPoint::new(1052530684591));
    }
    proof {
        assert(price.v == price_chain(t, 11) && FIXED_POINT_ONE <= price.v <= 1107765455115) by {
            assert(tick_mask(10) == 0x400 && tick_factor(10) == 1052530684591);
            assert(1052478062002 <= 1107765455115);
        }
    }
    if t & 0x800 != 0 {
        proof { lemma_price_chain_step(price.v as int, 1107820842005, 1107765455115, 1227205659229); }
        price = price.mul_floor(FixedPoint::new(1107820842005));
    }
    proof {
        assert(price.v == price_chain(t, 12) && FIXED_POINT_ONE <= price.v <= 1227205659229) by {
            assert(tick_mask(11) == 0x800 && tick_factor(11) == 1107820842005);
            assert(1107765455115 <= 1227205659229);
        }
    }
    if t & 0x1000 != 0 {
        proof { lemma_price_chain_step(price.v as int, 1227267017980, 1227205659229, 1506109029850); }
        price = price.mul_floor(FixedPoint::new(1227267017980));
    }
    proof {
        assert(price.v == price_chain(t, 13) && FIXED_POINT_ONE <= price.v <= 1506109029850) by {
            assert(tick_mask(12) == 0x1000 && tick_factor(12) == 1227267017980);
            assert(1227205659229 <= 1506109029850);
        }
    }
    if t & 0x2000 != 0 {
        proof { lemma_price_chain_step(price.v as int, 1506184333421, 1506109029850, 2268477825183); }
        price = price.mul_floor(FixedPoint::new(1506184333421));
    }
    proof {
        assert(price.v == price_chain(t, 14) && FIXED_POINT_ONE <= price.v <= 2268477825183) by {
            assert(tick_mask(13) == 0x2000 && tick_factor(13) == 1506184333421);
            assert(1506109029850 <= 2268477825183);
        }
    }
    if t & 0x4000 != 0 {
        proof { lemma_price_chain_step(price.v as int, 2268591246242, 2268477825183, 5146248936504); }
        price = price.mul_floor(FixedPoint::new(2268591246242));
    }
    proof {
        assert(price.v == price_chain(t, 15) && FIXED_POINT_ONE <= price.v <= 5146248936504) by {
            assert(tick_mask(14) == 0x4000 && tick_factor(14) == 2268591246242);
            assert(2268477825183 <= 5146248936504);
        }
    }
    if t & 0x8000 != 0 {
        proof { lemma_price_chain_step(price.v as int, 5146506242525, 5146248936504, 26485202277305); }
        price = price.mul_floor(FixedPoint::new(5146506242525));
    }
    proof {
        assert(price.v == price_chain(t, 16) && FIXED_POINT_ONE <= price.v <= 26485202277305) by {
            assert(tick_mask(15) == 0x8000 && tick_factor(15) == 5146506242525);
            assert(5146248936504 <= 26485202277305);
        }
    }
    if t & 0x1_0000 != 0 {
        proof { lemma_price_chain_step(price.v as int, 26486526504348, 26485202277305, 701501012090856); }
        price = price.mul_floor(FixedPoint::new(26486526504348));
    }
    proof {
        assert(price.v == price_chain(t, 17) && FIXED_POINT_ONE <= price.v <= 701501012090856) by {
            assert(tick_mask(16) == 0x1_0000 && tick_factor(16) == 26486526504348);
            assert(26485202277305 <= 701501012090856);
        }
    }
    if t & 0x2_0000 != 0 {
        proof { lemma_price_chain_step(price.v as int, 701536086265529, 701501012090856, 492128274533526656); }
        price = price.mul_floor(FixedPoint::new(701536086265529));
    }
    proof {
        assert(price.v == price_chain(t, 18) && FIXED_POINT_ONE <= price.v <= 492128274533526656) by {
            assert(tick_mask(17) == 0x2_0000 && tick_factor(17) == 701536086265529);
            assert(701501012090856 <= 492128274533526656);
        }
    }
    if tick_index >= 0 {
        Price::from_decimal(price)
    } else {
        let recip = match FixedPoint::from_integer(1).big_div(price) {
            Ok(f) => f,
            Err(_) => {
                proof {
                    vstd::arithmetic::div_mod::lemma_div_is_ordered_by_denominator(
                        (FIXED_POINT_ONE * FIXED_POINT_ONE) as int,
                        FIXED_POINT_ONE as int,
                        price.v as int,
                    );
                    assert(false);
                }
                FixedPoint::new(0)
            },
        };
        proof {
            vstd::arithmetic::div_mod::lemma_div_pos_is_pos(
                (FIXED_POINT_ONE * FIXED_POINT_ONE) as int,
                price.v as int,
            );
            assert(recip.v >= 1) by {
                vstd::arithmetic::div_mod::lemma_div_is_ordered_by_denominator(
                    (FIXED_POINT_ONE * FIXED_POINT_ONE) as int,
                    price.v as int,
                    492128274533526656,
                );
                assert((FIXED_POINT_ONE * FIXED_POINT_ONE) as int / 492128274533526656int >= 1);
            }
            vstd::arithmetic::div_mod::lemma_div_is_ordered_by_denominator(
                (FIXED_POINT_ONE * FIXED_POINT_ONE) as int,
                FIXED_POINT_ONE as int,
                price.v as int,
            );
        }
        Price::from_decimal(recip)
    }
}

/// Converts a tick index to its square-root price; identical to
/// `calculate_sqrt_price` and kept under both of its historical names.
pub fn calculate_price_sqrt(tick_index: i32) -> (r: Price)
    requires
        -MAX_TICK <= tick_index <= MAX_TICK,
    ensures
        r.v == sqrt_price_of_tick(tick_index as int),
        r.v > 0,
{
    calculate_sqrt_price(tick_index)
}




/// The absolute difference of two sqrt prices.
pub open spec fn price_diff(a: int, b: int) -> int {
    if a > b {
        a - b
    } else {
        b - a
    }
}

/// The truncated intermediate of `calculate_x`: liquidity times the price
/// nominator, brought back to price scale against the denominator.
pub open spec fn calc_x_common(nominator: int, denominator: int, liquidity: int) -> int {
    (liquidity * nominator / (PRICE_ONE as int)) * (PRICE_ONE as int) / denominator
}

/// The token-X amount behind `calculate_x`, in whole token units.
pub open spec fn calc_x_val(nominator: int, denominator: int, liquidity: int, round_up: bool) -> int {
    if round_up {
        div_ceil(calc_x_common(nominator, denominator, liquidity), LIQUIDITY_ONE as int)
    } else {
        calc_x_common(nominator, denominator, liquidity) / (LIQUIDITY_ONE as int)
    }
}

/// The token-Y amount behind `calculate_y`: the liquidity is truncated to
/// whole units before it scales the price difference.
pub open spec fn calc_y_val(diff: int, liquidity: int, round_up: bool) -> int {
    let shifted = liquidity / (LIQUIDITY_ONE as int);
    if round_up {
        div_ceil(diff * shifted, PRICE_ONE as int)
    } else {
        diff * shifted / (PRICE_ONE as int)
    }
}

/// Scaled division of a liquidity amount by a price fraction, floor or
/// ceiling, yielding whole token-X units.
pub fn calculate_x(
    nominator: Price,
    denominator: Price,
    liquidity: Liquidity,
    rounding_up: bool,
) -> (r: Result<TokenAmount, MathError>)
    ensures
        ({
            let step1 = liquidity.v * nominator.v / (PRICE_ONE as int);
            let common = calc_x_common(nominator.v as int, denominator.v as int, liquidity.v as int);
            let val = calc_x_val(nominator.v as int, denominator.v as int, liquidity.v as int, rounding_up);
            &&& (r is Ok <==> step1 <= u128::MAX && denominator.v > 0 && common <= u128::MAX
                && val <= u64::MAX)
            &&& (r matches Ok(t) ==> t.0 == val)
            &&& (step1 > u128::MAX ==> r == Err::<TokenAmount, MathError>(MathError::Overflow))
            &&& (step1 <= u128::MAX && denominator.v == 0
                ==> r == Err::<TokenAmount, MathError>(MathError::DivisionByZero))
            &&& (step1 <= u128::MAX && denominator.v > 0 && (common > u128::MAX || val > u64::MAX)
                ==> r == Err::<TokenAmount, MathError>(MathError::Overflow))
        }),
{
    let lm = match liquidity.big_mul(nominator) {
        Ok(l) => l,
        Err(e) => {
            return Err(e);
        },
    };
    let common = match lm.big_div(denominator) {
        Ok(l) => l,
        Err(e) => {
            return Err(e);
        },
    };
    if rounding_up {
        proof {
            lemma_div_ceil_adjust(common.v as int, LIQUIDITY_ONE as int);
        }
        let q = common.v / LIQUIDITY_ONE;
        let rem = common.v % LIQUIDITY_ONE;
        let val = if rem > 0 {
            q + 1
        } else {
            q
        };
        if val <= u64::MAX as u128 {
            Ok(TokenAmount(val as u64))
        } else {
            Err(MathError::Overflow)
        }
    } else {
        let val = common.v / LIQUIDITY_ONE;
        if val <= u64::MAX as u128 {
            Ok(TokenAmount(val as u64))
        } else {
            Err(MathError::Overflow)
        }
    }
}

/// Scaled multiplication of a liquidity amount by a sqrt-price difference,
/// floor or ceiling, yielding whole token-Y units.
pub fn calculate_y(
    sqrt_price_diff: Price,
    liquidity: Liquidity,
    rounding_up: bool,
) -> (r: Result<TokenAmount, MathError>)
    ensures
        r is Ok <==> calc_y_val(sqrt_price_diff.v as int, liquidity.v as int, rounding_up)
            <= u64::MAX,
        r matches Ok(t) ==> t.0 == calc_y_val(
            sqrt_price_diff.v as int,
            liquidity.v as int,
            rounding_up,
        ),
        r is Err ==> r == Err::<TokenAmount, MathError>(MathError::Overflow),
{
    let shifted = liquidity.get() / LIQUIDITY_ONE;
    let (p_hi, p_lo) = mul_wide(sqrt_price_diff.v, shifted);
    let (q_hi, q_lo, rem) = div_wide(p_hi, p_lo, PRICE_ONE);
    if rounding_up {
        proof {
            lemma_div_ceil_adjust((sqrt_price_diff.v * shifted) as int, PRICE_ONE as int);
        }
        if q_hi != 0 {
            proof {
                assert(wval(q_hi as int, q_lo as int) > u64::MAX);
            }
            Err(MathError::Overflow)
        } else if rem == 0 {
            if q_lo <= u64::MAX as u128 {
                Ok(TokenAmount(q_lo as u64))
            } else {
                Err(MathError::Overflow)
            }
        } else {
            if q_lo < u64::MAX as u128 {
                Ok(TokenAmount((q_lo + 1) as u64))
            } else {
                Err(MathError::Overflow)
            }
        }
    } else {
        if q_hi == 0 && q_lo <= u64::MAX as u128 {
            Ok(TokenAmount(q_lo as u64))
        } else {
            proof {
                if q_hi != 0 {
                    assert(wval(q_hi as int, q_lo as int) > u64::MAX);
                }
            }
            Err(MathError::Overflow)
        }
    }
}

/// The token-X amount moved by a liquidity change between two sqrt prices:
/// `L * |a - b| / (a * b)`, with the rounding of each stage fixed by the
/// compatibility surface.
pub open spec fn delta_x_val(a: int, b: int, liquidity: int, up: bool) -> int {
    let nom = price_diff(a, b) * liquidity / (LIQUIDITY_ONE as int);
    if up {
        div_ceil(nom, a * b / (PRICE_ONE as int))
    } else {
        nom / div_ceil(a * b, PRICE_ONE as int)
    }
}

/// The denominator used by `get_delta_x` for its rounding direction.
pub open spec fn delta_x_den(a: int, b: int, up: bool) -> int {
    if up {
        a * b / (PRICE_ONE as int)
    } else {
        div_ceil(a * b, PRICE_ONE as int)
    }
}

/// Token-X amount for a liquidity change between two sqrt prices, in the
/// requested rounding direction; `None` when a stage overflows its width or
/// the price product truncates to zero.
pub fn get_delta_x(
    sqrt_price_a: Price,
    sqrt_price_b: Price,
    liquidity: Liquidity,
    up: bool,
) -> (r: Option<TokenAmount>)
    ensures
        ({
            let den = delta_x_den(sqrt_price_a.v as int, sqrt_price_b.v as int, up);
            let val = delta_x_val(sqrt_price_a.v as int, sqrt_price_b.v as int, liquidity.v as int, up);
            &&& (r is Some <==> 0 < den <= u128::MAX && val <= u64::MAX)
            &&& (r matches Some(t) ==> t.0 == val)
        }),
{
    let delta_price = if sqrt_price_a.v > sqrt_price_b.v {
        Price { v: sqrt_price_a.v - sqrt_price_b.v }
    } else {
        Price { v: sqrt_price_b.v - sqrt_price_a.v }
    };
    let (n_hi0, n_lo0) = mul_wide(delta_price.v, liquidity.v);
    let (n_hi, n_lo, _nrem) = div_wide(n_hi0, n_lo0, LIQUIDITY_ONE);
    let ghost nom: int = price_diff(sqrt_price_a.v as int, sqrt_price_b.v as int)
        * liquidity.v / (LIQUIDITY_ONE as int);
    proof {
        assert(wval(n_hi as int, n_lo as int) == nom);
    }
    let den_opt = if up {
        mul_div_floor(sqrt_price_a.v, sqrt_price_b.v, PRICE_ONE)
    } else {
        mul_div_ceil(sqrt_price_a.v, sqrt_price_b.v, PRICE_ONE)
    };
    let den = match den_opt {
        Some(d) => d,
        None => {
            return None;
        },
    };
    if den == 0 {
        return None;
    }
    let (q_hi, q_lo, rem) = div_wide(n_hi, n_lo, den);
    if up {
        proof {
            lemma_div_ceil_adjust(nom, den as int);
        }
        if q_hi != 0 {
            proof {
                assert(wval(q_hi as int, q_lo as int) > u64::MAX);
            }
            None
        } else if rem == 0 {
            if q_lo <= u64::MAX as u128 {
                Some(TokenAmount(q_lo as u64))
            } else {
                None
            }
        } else {
            if q_lo < u64::MAX as u128 {
                Some(TokenAmount((q_lo + 1) as u64))
            } else {
                None
            }
        }
    } else {
        if q_hi == 0 && q_lo <= u64::MAX as u128 {
            Some(TokenAmount(q_lo as u64))
        } else {
            proof {
                if q_hi != 0 {
                    assert(wval(q_hi as int, q_lo as int) > u64::MAX);
                }
            }
            None
        }
    }
}

/// The token-Y amount moved by a liquidity change between two sqrt prices:
/// `L * |a - b|`, brought to whole token units.
pub open spec fn delta_y_val(a: int, b: int, liquidity: int, up: bool) -> int {
    let p = price_diff(a, b) * liquidity;
    if up {
        div_ceil(p, (LIQUIDITY_ONE * PRICE_ONE) as int)
    } else {
        p / ((LIQUIDITY_ONE * PRICE_ONE) as int)
    }
}

/// Token-Y amount for a liquidity change between two sqrt prices, in the
/// requested rounding direction; `None` when it exceeds the token width.
pub fn get_delta_y(
    sqrt_price_a: Price,
    sqrt_price_b: Price,
    liquidity: Liquidity,
    up: bool,
) -> (r: Option<TokenAmount>)
    ensures
        r is Some <==> delta_y_val(
            sqrt_price_a.v as int,
            sqrt_price_b.v as int,
            liquidity.v as int,
            up,
        ) <= u64::MAX,
        r matches Some(t) ==> t.0 == delta_y_val(
            sqrt_price_a.v as int,
            sqrt_price_b.v as int,
            liquidity.v as int,
            up,
        ),
{
    let delta_price = if sqrt_price_a.v > sqrt_price_b.v {
        Price { v: sqrt_price_a.v - sqrt_price_b.v }
    } else {
        Price { v: sqrt_price_b.v - sqrt_price_a.v }
    };
    let (p_hi, p_lo) = mul_wide(delta_price.v, liquidity.v);
    let scale: u128 = LIQUIDITY_ONE * PRICE_ONE;
    let (q_hi, q_lo, rem) = div_wide(p_hi, p_lo, scale);
    if up {
        proof {
            lemma_div_ceil_adjust((delta_price.v * liquidity.v) as int, scale as int);
        }
        if q_hi != 0 {
            proof {
                assert(wval(q_hi as int, q_lo as int) > u64::MAX);
            }
            None
        } else if rem == 0 {
            if q_lo <= u64::MAX as u128 {
                Some(TokenAmount(q_lo as u64))
            } else {
                None
            }
        } else {
            if q_lo < u64::MAX as u128 {
                Some(TokenAmount((q_lo + 1) as u64))
            } else {
                None
            }
        }
    } else {
        if q_hi == 0 && q_lo <= u64::MAX as u128 {
            Some(TokenAmount(q_lo as u64))
        } else {
            proof {
                if q_hi != 0 {
                    assert(wval(q_hi as int, q_lo as int) > u64::MAX);
                }
            }
            None
        }
    }
}


/// Token amounts actually consumed and the liquidity they support.
#[derive(Clone, Copy, Debug, PartialEq, Eq, Structural)]
pub struct LiquidityResult {
    pub x: TokenAmount,
    pub y: TokenAmount,
    pub l: Liquidity,
}

/// Liquidity derived from one token side, and the amount then required on
/// the other side.
#[derive(Clone, Copy, Debug, PartialEq, Eq, Structural)]
pub struct SingleTokenLiquidity {
    pub l: Liquidity,
    pub amount: TokenAmount,
}

/// The liquidity supported by `x` tokens between `current` and `upper`:
/// `x * (current * upper) / (upper - current)` at liquidity scale.
pub open spec fn liquidity_by_x_l(x: int, upper: int, current: int) -> int {
    (x * (LIQUIDITY_ONE as int)) * (current * upper / (PRICE_ONE as int)) / (upper - current)
}

/// The full outcome of `get_liquidity_by_x_sqrt_price`, including the exact
/// input regions of each failure.
pub open spec fn liquidity_by_x_result(
    x: int,
    lower: int,
    upper: int,
    current: int,
    round_up: bool,
) -> Result<SingleTokenLiquidity, MathError> {
    if upper < current {
        Err(MathError::PriceAboveRange)
    } else if lower > current {
        Err(MathError::PriceBelowRange)
    } else if current * upper / (PRICE_ONE as int) > u128::MAX {
        Err(MathError::Overflow)
    } else if upper == current {
        Err(MathError::DivisionByZero)
    } else if liquidity_by_x_l(x, upper, current) > u128::MAX {
        Err(MathError::Overflow)
    } else if calc_y_val(current - lower, liquidity_by_x_l(x, upper, current), round_up)
        > u64::MAX {
        Err(MathError::Overflow)
    } else {
        Ok(SingleTokenLiquidity {
            l: Liquidity { v: liquidity_by_x_l(x, upper, current) as u128 },
            amount: TokenAmount(
                calc_y_val(current - lower, liquidity_by_x_l(x, upper, current), round_up) as u64,
            ),
        })
    }
}

/// Liquidity backed by an X amount between the current and upper sqrt
/// prices, plus the Y amount the range then requires below the current
/// price. Valid only while the current price sits inside the range.
pub fn get_liquidity_by_x_sqrt_price(
    x: TokenAmount,
    lower_sqrt_price: Price,
    upper_sqrt_price: Price,
    current_sqrt_price: Price,
    rounding_up: bool,
) -> (r: Result<SingleTokenLiquidity, MathError>)
    ensures
        r == liquidity_by_x_result(
            x.0 as int,
            lower_sqrt_price.v as int,
            upper_sqrt_price.v as int,
            current_sqrt_price.v as int,
            rounding_up,
        ),
{
    if upper_sqrt_price.v < current_sqrt_price.v {
        return Err(MathError::PriceAboveRange);
    }
    if lower_sqrt_price.v > current_sqrt_price.v {
        return Err(MathError::PriceBelowRange);
    }
    let nominator = match current_sqrt_price.big_mul(upper_sqrt_price) {
        Ok(p) => p,
        Err(e) => {
            return Err(e);
        },
    };
    if upper_sqrt_price.v == current_sqrt_price.v {
        return Err(MathError::DivisionByZero);
    }
    let denominator = upper_sqrt_price.v - current_sqrt_price.v;
    let scaled_x = (x.0 as u128) * LIQUIDITY_ONE;
    let liquidity = match mul_div_floor(scaled_x, nominator.v, denominator) {
        Some(v) => Liquidity { v },
        None => {
            return Err(MathError::Overflow);
        },
    };
    let sqrt_price_diff = Price { v: current_sqrt_price.v - lower_sqrt_price.v };
    match calculate_y(sqrt_price_diff, liquidity, rounding_up) {
        Ok(y) => Ok(SingleTokenLiquidity { l: liquidity, amount: y }),
        Err(e) => Err(e),
    }
}

/// The liquidity supported by `y` tokens between `lower` and `current`:
/// `y / (current - lower)` at liquidity scale.
pub open spec fn liquidity_by_y_l(y: int, lower: int, current: int) -> int {
    (y * (LIQUIDITY_ONE as int)) * (PRICE_ONE as int) / (current - lower)
}

/// The full outcome of `get_liquidity_by_y_sqrt_price`, including the exact
/// input regions of each failure. At or above the range, all of `y` backs
/// liquidity over the full range width and no X is required.
pub open spec fn liquidity_by_y_result(
    y: int,
    lower: int,
    upper: int,
    current: int,
    round_up: bool,
) -> Result<SingleTokenLiquidity, MathError> {
    if current < lower {
        Err(MathError::PriceBelowRange)
    } else if upper <= current {
        if upper < lower {
            Err(MathError::Underflow)
        } else if upper == lower {
            Err(MathError::DivisionByZero)
        } else if liquidity_by_y_l(y, lower, upper) > u128::MAX {
            Err(MathError::Overflow)
        } else {
            Ok(SingleTokenLiquidity {
                l: Liquidity { v: liquidity_by_y_l(y, lower, upper) as u128 },
                amount: TokenAmount(0),
            })
        }
    } else if current == lower {
        Err(MathError::DivisionByZero)
    } else if liquidity_by_y_l(y, lower, current) > u128::MAX {
        Err(MathError::Overflow)
    } else if current * upper / (PRICE_ONE as int) > u128::MAX {
        Err(MathError::Overflow)
    } else {
        let l = liquidity_by_y_l(y, lower, current);
        let den = current * upper / (PRICE_ONE as int);
        let step1 = l * (upper - current) / (PRICE_ONE as int);
        if step1 > u128::MAX {
            Err(MathError::Overflow)
        } else if den == 0 {
            Err(MathError::DivisionByZero)
        } else if calc_x_common(upper - current, den, l) > u128::MAX {
            Err(MathError::Overflow)
        } else if calc_x_val(upper - current, den, l, round_up) > u64::MAX {
            Err(MathError::Overflow)
        } else {
            Ok(SingleTokenLiquidity {
                l: Liquidity { v: l as u128 },
                amount: TokenAmount(calc_x_val(upper - current, den, l, round_up) as u64),
            })
        }
    }
}

/// Liquidity backed by a Y amount between the lower and current sqrt
/// prices, plus the X amount the range then requires above the current
/// price. Valid whenever the current price is not below the range: at or
/// above it, `y` spans the full range width and no X is required.
pub fn get_liquidity_by_y_sqrt_price(
    y: TokenAmount,
    lower_sqrt_price: Price,
    upper_sqrt_price: Price,
    current_sqrt_price: Price,
    rounding_up: bool,
) -> (r: Result<SingleTokenLiquidity, MathError>)
    ensures
        r == liquidity_by_y_result(
            y.0 as int,
            lower_sqrt_price.v as int,
            upper_sqrt_price.v as int,
            current_sqrt_price.v as int,
            rounding_up,
        ),
{
    if current_sqrt_price.v < lower_sqrt_price.v {
        return Err(MathError::PriceBelowRange);
    }
    if upper_sqrt_price.v <= current_sqrt_price.v {
        // price at or above the range: all of y spans the full range width
        if upper_sqrt_price.v < lower_sqrt_price.v {
            return Err(MathError::Underflow);
        }
        if upper_sqrt_price.v == lower_sqrt_price.v {
            return Err(MathError::DivisionByZero);
        }
        let full_width = upper_sqrt_price.v - lower_sqrt_price.v;
        let scaled_y = (y.0 as u128) * LIQUIDITY_ONE;
        return match mul_div_floor(scaled_y, PRICE_ONE, full_width) {
            Some(v) => Ok(SingleTokenLiquidity { l: Liquidity { v }, amount: TokenAmount(0) }),
            None => Err(MathError::Overflow),
        };
    }
    let sqrt_price_diff = current_sqrt_price.v - lower_sqrt_price.v;
    if sqrt_price_diff == 0 {
        return Err(MathError::DivisionByZero);
    }
    let scaled_y = (y.0 as u128) * LIQUIDITY_ONE;
    let liquidity = match mul_div_floor(scaled_y, PRICE_ONE, sqrt_price_diff) {
        Some(v) => Liquidity { v },
        None => {
            return Err(MathError::Overflow);
        },
    };
    let denominator = match current_sqrt_price.big_mul(upper_sqrt_price) {
        Ok(p) => p,
        Err(e) => {
            return Err(e);
        },
    };
    let nominator = Price { v: upper_sqrt_price.v - current_sqrt_price.v };
    match calculate_x(nominator, denominator, liquidity, rounding_up) {
        Ok(amount) => Ok(SingleTokenLiquidity { l: liquidity, amount }),
        Err(e) => Err(e),
    }
}


/// The binding result of `get_max_liquidity`: the side yielding the smaller
/// liquidity constrains the deposit; the other side's requirement is taken
/// from that binding side's computation.
pub open spec fn max_liquidity_choice(
    x: int,
    y: int,
    by_x: SingleTokenLiquidity,
    by_y: SingleTokenLiquidity,
) -> LiquidityResult {
    if by_x.l.v > by_y.l.v {
        if by_x.amount.0 <= y {
            LiquidityResult { x: TokenAmount(x as u64), y: by_x.amount, l: by_x.l }
        } else {
            LiquidityResult { x: by_y.amount, y: TokenAmount(y as u64), l: by_y.l }
        }
    } else {
        if by_y.amount.0 <= x {
            LiquidityResult { x: by_y.amount, y: TokenAmount(y as u64), l: by_y.l }
        } else {
            LiquidityResult { x: TokenAmount(x as u64), y: by_x.amount, l: by_x.l }
        }
    }
}

/// The full outcome of `get_max_liquidity`, including the exact input
/// regions of each failure.
pub open spec fn max_liquidity_result(
    x: int,
    y: int,
    lower_tick: int,
    upper_tick: int,
    current: int,
    round_up: bool,
) -> Result<LiquidityResult, MathError> {
    if lower_tick < -MAX_TICK || upper_tick > MAX_TICK {
        Err(MathError::InvalidTicks)
    } else if lower_tick >= upper_tick {
        Err(MathError::InvalidTickRange)
    } else {
        let lower = sqrt_price_of_tick(lower_tick);
        let upper = sqrt_price_of_tick(upper_tick);
        match liquidity_by_y_result(y, lower, upper, current, round_up) {
            Err(e) => Err(e),
            Ok(by_y) => match liquidity_by_x_result(x, lower, upper, current, round_up) {
                Err(e) => Err(e),
                Ok(by_x) => Ok(max_liquidity_choice(x, y, by_x, by_y)),
            },
        }
    }
}

/// The liquidity a range can absorb from the supplied token amounts, and
/// the amounts it actually consumes. The binding side is whichever token
/// supports less liquidity; consumed amounts never exceed what was supplied.
pub fn get_max_liquidity(
    x: TokenAmount,
    y: TokenAmount,
    lower_tick: i32,
    upper_tick: i32,
    current_sqrt_price: Price,
    rounding_up: bool,
) -> (r: Result<LiquidityResult, MathError>)
    ensures
        r == max_liquidity_result(
            x.0 as int,
            y.0 as int,
            lower_tick as int,
            upper_tick as int,
            current_sqrt_price.v as int,
            rounding_up,
        ),
        r matches Ok(res) ==> res.x.0 <= x.0 && res.y.0 <= y.0,
{
    if lower_tick < -MAX_TICK || upper_tick > MAX_TICK {
        return Err(MathError::InvalidTicks);
    }
    if lower_tick >= upper_tick {
        return Err(MathError::InvalidTickRange);
    }
    let lower_sqrt_price = calculate_sqrt_price(lower_tick);
    let upper_sqrt_price = calculate_sqrt_price(upper_tick);
    let result_by_y = match get_liquidity_by_y_sqrt_price(
        y,
        lower_sqrt_price,
        upper_sqrt_price,
        current_sqrt_price,
        rounding_up,
    ) {
        Ok(res) => res,
        Err(e) => {
            return Err(e);
        },
    };
    let result_by_x = match get_liquidity_by_x_sqrt_price(
        x,
        lower_sqrt_price,
        upper_sqrt_price,
        current_sqrt_price,
        rounding_up,
    ) {
        Ok(res) => res,
        Err(e) => {
            return Err(e);
        },
    };
    proof {
        lemma_binding_side_fits(
            x.0 as int,
            y.0 as int,
            lower_sqrt_price.v as int,
            upper_sqrt_price.v as int,
            current_sqrt_price.v as int,
            rounding_up,
        );
    }
    let result = if result_by_x.l.v > result_by_y.l.v {
        if result_by_x.amount.0 <= y.0 {
            LiquidityResult { x, y: result_by_x.amount, l: result_by_x.l }
        } else {
            LiquidityResult { x: result_by_y.amount, y, l: result_by_y.l }
        }
    } else {
        if result_by_y.amount.0 <= x.0 {
            LiquidityResult { x: result_by_y.amount, y, l: result_by_y.l }
        } else {
            LiquidityResult { x, y: result_by_x.amount, l: result_by_x.l }
        }
    };
    Ok(result)
}

/// When both single-sided conversions succeed, the side with the smaller
/// liquidity asks no more of the other token than was supplied: with
/// `l_x > l_y` the X requirement of the Y-side result stays within `x`,
/// and with `l_x <= l_y` the Y requirement of the X-side result stays
/// within `y`.
proof fn lemma_binding_side_fits(
    x: int,
    y: int,
    lower: int,
    upper: int,
    current: int,
    round_up: bool,
)
    requires
        liquidity_by_y_result(y, lower, upper, current, round_up) is Ok,
        liquidity_by_x_result(x, lower, upper, current, round_up) is Ok,
        0 <= x,
        0 <= y,
        0 <= lower,
        0 <= current,
        0 <= upper,
    ensures
        ({
            let by_y = liquidity_by_y_result(y, lower, upper, current, round_up)->Ok_0;
            let by_x = liquidity_by_x_result(x, lower, upper, current, round_up)->Ok_0;
            &&& (by_x.l.v > by_y.l.v ==> by_y.amount.0 <= x)
            &&& (by_x.l.v <= by_y.l.v ==> by_x.amount.0 <= y)
        }),
{
    let pone = PRICE_ONE as int;
    let lone = LIQUIDITY_ONE as int;
    let diff = current - lower;
    let p = current * upper / pone;
    let d = upper - current;
    let ly = liquidity_by_y_l(y, lower, current);
    let lx = liquidity_by_x_l(x, upper, current);
    assert(lower <= current && current < upper && diff > 0 && d > 0);
    assert(p != 0);
    lemma_mul_nonnegative(current, upper);
    lemma_div_pos_is_pos(current * upper, pone);
    assert(p >= 1);
    lemma_mul_nonnegative(y * lone, pone);
    lemma_div_pos_is_pos((y * lone) * pone, diff);
    assert(ly >= 0);
    lemma_mul_nonnegative(x * lone, p);
    lemma_div_pos_is_pos((x * lone) * p, d);
    assert(lx >= 0);
    if lx > ly {
        // the Y-side liquidity binds; its X requirement stays within x
        let t1 = ly * d / pone;
        let common = t1 * pone / p;
        lemma_mul_nonnegative(ly, d);
        lemma_fundamental_div_mod(ly * d, pone);
        lemma_mod_bound(ly * d, pone);
        assert(t1 * pone <= ly * d) by (nonlinear_arith)
            requires ly * d == pone * t1 + (ly * d) % pone, (ly * d) % pone >= 0;
        lemma_mul_nonnegative(t1, pone);
        lemma_div_pos_is_pos(t1 * pone, p);
        lemma_fundamental_div_mod(t1 * pone, p);
        lemma_mod_bound(t1 * pone, p);
        assert(common * p <= t1 * pone) by (nonlinear_arith)
            requires t1 * pone == p * common + (t1 * pone) % p, (t1 * pone) % p >= 0;
        lemma_fundamental_div_mod((x * lone) * p, d);
        lemma_mod_bound((x * lone) * p, d);
        assert(lx * d <= (x * lone) * p) by (nonlinear_arith)
            requires
                (x * lone) * p == d * lx + ((x * lone) * p) % d,
                ((x * lone) * p) % d >= 0,
        ;
        assert(ly * d <= lx * d - d) by (nonlinear_arith)
            requires ly <= lx - 1, d > 0;
        assert(common * p < (x * lone) * p);
        assert(common < x * lone) by (nonlinear_arith)
            requires common * p < (x * lone) * p, p > 0;
        lemma_div_pos_is_pos(common, 1);
        assert(common >= 0) by {
            lemma_div_pos_is_pos(t1 * pone, p);
        }
        assert(x >= 1) by {
            if x == 0 {
                assert(common < 0);
            }
        }
        assert(common <= x * lone - 1);
        // both rounding directions stay within x
        assert(div_ceil(common, lone) <= x) by {
            lemma_div_is_ordered(common + lone - 1, x * lone + lone - 2, lone);
            lemma_fundamental_div_mod_converse(x * lone + lone - 2, lone, x, lone - 2);
        }
        assert(common / lone <= x) by {
            lemma_div_is_ordered(common, x * lone - 1, lone);
            lemma_fundamental_div_mod_converse(x * lone - 1, lone, x - 1, lone - 1);
        }
        assert(calc_x_val(d, p, ly, round_up) <= x);
    } else {
        // the X-side liquidity binds; its Y requirement stays within y
        let shifted = lx / lone;
        lemma_div_is_ordered(lx, ly, lone);
        lemma_div_denominator((y * lone) * pone, diff, lone);
        assert(ly / lone == (y * lone) * pone / (diff * lone));
        assert((y * lone) * pone == lone * (y * pone)) by (nonlinear_arith);
        assert(diff * lone == lone * diff) by (nonlinear_arith);
        lemma_mul_nonnegative(y, pone);
        lemma_div_multiples_vanish_quotient(lone, y * pone, diff);
        assert(ly / lone == (y * pone) / diff);
        lemma_fundamental_div_mod(y * pone, diff);
        lemma_mod_bound(y * pone, diff);
        assert(((y * pone) / diff) * diff <= y * pone) by (nonlinear_arith)
            requires
                y * pone == diff * ((y * pone) / diff) + (y * pone) % diff,
                (y * pone) % diff >= 0,
        ;
        lemma_mul_inequality(shifted, (y * pone) / diff, diff);
        assert(diff * shifted <= y * pone) by (nonlinear_arith)
            requires shifted * diff <= ((y * pone) / diff) * diff,
                ((y * pone) / diff) * diff <= y * pone;
        // both rounding directions stay within y
        assert(div_ceil(diff * shifted, pone) <= y) by {
            lemma_div_is_ordered(diff * shifted + pone - 1, y * pone + pone - 1, pone);
            lemma_fundamental_div_mod_converse(y * pone + pone - 1, pone, y, pone - 1);
        }
        assert(diff * shifted / pone <= y) by {
            lemma_div_is_ordered(diff * shifted, y * pone, pone);
            lemma_fundamental_div_mod_converse(y * pone, pone, y, 0);
        }
        assert(calc_y_val(diff, lx, round_up) <= y);
    }
}


/// The X component of the token cost of a liquidity change, by the position
/// of the current tick against the range.
pub open spec fn amount_delta_x_of(
    current_sqrt_price: int,
    liquidity_delta: int,
    liquidity_sign: bool,
    current_tick_index: int,
    lower_tick: int,
    upper_tick: int,
) -> int {
    let lower = sqrt_price_of_tick(lower_tick);
    let upper = sqrt_price_of_tick(upper_tick);
    if current_tick_index < lower_tick {
        delta_x_val(lower, upper, liquidity_delta, liquidity_sign)
    } else if current_tick_index < upper_tick {
        delta_x_val(current_sqrt_price, upper, liquidity_delta, liquidity_sign)
    } else {
        0
    }
}

/// The Y component of the token cost of a liquidity change, by the position
/// of the current tick against the range.
pub open spec fn amount_delta_y_of(
    current_sqrt_price: int,
    liquidity_delta: int,
    liquidity_sign: bool,
    current_tick_index: int,
    lower_tick: int,
    upper_tick: int,
) -> int {
    let lower = sqrt_price_of_tick(lower_tick);
    let upper = sqrt_price_of_tick(upper_tick);
    if current_tick_index < lower_tick {
        0
    } else if current_tick_index < upper_tick {
        delta_y_val(lower, current_sqrt_price, liquidity_delta, liquidity_sign)
    } else {
        delta_y_val(lower, upper, liquidity_delta, liquidity_sign)
    }
}

/// An accepted range cost carries exactly the two cost components.
pub proof fn lemma_amount_delta_components(
    current_sqrt_price: int,
    liquidity_delta: int,
    liquidity_sign: bool,
    current_tick_index: int,
    lower_tick: int,
    upper_tick: int,
)
    requires
        0 <= liquidity_delta,
        amount_delta_result(
            current_sqrt_price, liquidity_delta, liquidity_sign,
            current_tick_index, lower_tick, upper_tick,
        ) is Ok,
    ensures
        ({
            let r = amount_delta_result(
                current_sqrt_price, liquidity_delta, liquidity_sign,
                current_tick_index, lower_tick, upper_tick,
            )->Ok_0;
            &&& r.0.0 == amount_delta_x_of(
                current_sqrt_price, liquidity_delta, liquidity_sign,
                current_tick_index, lower_tick, upper_tick,
            )
            &&& r.1.0 == amount_delta_y_of(
                current_sqrt_price, liquidity_delta, liquidity_sign,
                current_tick_index, lower_tick, upper_tick,
            )
        }),
        0 <= amount_delta_x_of(
            current_sqrt_price, liquidity_delta, liquidity_sign,
            current_tick_index, lower_tick, upper_tick,
        ) <= u64::MAX,
        0 <= amount_delta_y_of(
            current_sqrt_price, liquidity_delta, liquidity_sign,
            current_tick_index, lower_tick, upper_tick,
        ) <= u64::MAX,
{
    let lower = sqrt_price_of_tick(lower_tick);
    let upper = sqrt_price_of_tick(upper_tick);
    let lone = LIQUIDITY_ONE as int;
    let yscale = (LIQUIDITY_ONE * PRICE_ONE) as int;
    if current_tick_index < lower_tick {
        lemma_delta_val_nonneg(lower, upper, liquidity_delta, liquidity_sign);
    } else if current_tick_index < upper_tick {
        lemma_delta_val_nonneg(current_sqrt_price, upper, liquidity_delta, liquidity_sign);
        lemma_delta_val_nonneg(lower, current_sqrt_price, liquidity_delta, liquidity_sign);
    } else {
        lemma_delta_val_nonneg(lower, upper, liquidity_delta, liquidity_sign);
    }
}

/// Token costs of a nonnegative liquidity are nonnegative, whenever the
/// price-product denominator of the X side is positive.
proof fn lemma_delta_val_nonneg(a: int, b: int, liquidity: int, sign: bool)
    requires
        0 <= liquidity,
    ensures
        delta_x_den(a, b, sign) > 0 ==> 0 <= delta_x_val(a, b, liquidity, sign),
        0 <= delta_y_val(a, b, liquidity, sign),
{
    let lone = LIQUIDITY_ONE as int;
    let yscale = (LIQUIDITY_ONE * PRICE_ONE) as int;
    let dp = price_diff(a, b);
    lemma_mul_nonnegative(dp, liquidity);
    lemma_div_pos_is_pos(dp * liquidity, lone);
    let nom = dp * liquidity / lone;
    let den = delta_x_den(a, b, sign);
    if den > 0 {
        if sign {
            lemma_div_pos_is_pos(nom + den - 1, den);
        } else {
            lemma_div_pos_is_pos(nom, den);
        }
    }
    if sign {
        lemma_div_pos_is_pos(dp * liquidity + yscale - 1, yscale);
    } else {
        lemma_div_pos_is_pos(dp * liquidity, yscale);
    }
}

/// The token amounts moved by a liquidity change, by the position of the
/// current tick against the range: all X below it, all Y at or above it,
/// and a mix when the current tick lies inside.
pub open spec fn amount_delta_result(
    current_sqrt_price: int,
    liquidity_delta: int,
    liquidity_sign: bool,
    current_tick_index: int,
    lower_tick: int,
    upper_tick: int,
) -> Result<(TokenAmount, TokenAmount), MathError> {
    let lower = sqrt_price_of_tick(lower_tick);
    let upper = sqrt_price_of_tick(upper_tick);
    if current_tick_index < lower_tick {
        let den = delta_x_den(lower, upper, liquidity_sign);
        let vx = delta_x_val(lower, upper, liquidity_delta, liquidity_sign);
        if 0 < den <= u128::MAX && vx <= u64::MAX {
            Ok((TokenAmount(vx as u64), TokenAmount(0)))
        } else {
            Err(MathError::Overflow)
        }
    } else if current_tick_index < upper_tick {
        let den = delta_x_den(current_sqrt_price, upper, liquidity_sign);
        let vx = delta_x_val(current_sqrt_price, upper, liquidity_delta, liquidity_sign);
        let vy = delta_y_val(lower, current_sqrt_price, liquidity_delta, liquidity_sign);
        if !(0 < den <= u128::MAX && vx <= u64::MAX) {
            Err(MathError::Overflow)
        } else if vy > u64::MAX {
            Err(MathError::Overflow)
        } else {
            Ok((TokenAmount(vx as u64), TokenAmount(vy as u64)))
        }
    } else {
        let vy = delta_y_val(lower, upper, liquidity_delta, liquidity_sign);
        if vy <= u64::MAX {
            Ok((TokenAmount(0), TokenAmount(vy as u64)))
        } else {
            Err(MathError::Overflow)
        }
    }
}

/// Token amounts corresponding to a liquidity change over a tick range,
/// given the pool's current tick and sqrt price. `liquidity_sign` selects
/// the rounding direction: up when liquidity is added, down when removed,
/// so rounding always favours the pool.
pub fn calculate_amount_delta(
    current_sqrt_price: Price,
    liquidity_delta: Liquidity,
    liquidity_sign: bool,
    current_tick_index: i32,
    lower_tick: i32,
    upper_tick: i32,
) -> (r: Result<(TokenAmount, TokenAmount), MathError>)
    requires
        -MAX_TICK <= lower_tick <= MAX_TICK,
        -MAX_TICK <= upper_tick <= MAX_TICK,
    ensures
        r == amount_delta_result(
            current_sqrt_price.v as int,
            liquidity_delta.v as int,
            liquidity_sign,
            current_tick_index as int,
            lower_tick as int,
            upper_tick as int,
        ),
{
    if current_tick_index < lower_tick {
        match get_delta_x(
            calculate_sqrt_price(lower_tick),
            calculate_sqrt_price(upper_tick),
            liquidity_delta,
            liquidity_sign,
        ) {
            Some(amount_x) => Ok((amount_x, TokenAmount(0))),
            None => Err(MathError::Overflow),
        }
    } else if current_tick_index < upper_tick {
        let amount_x = match get_delta_x(
            current_sqrt_price,
            calculate_sqrt_price(upper_tick),
            liquidity_delta,
            liquidity_sign,
        ) {
            Some(a) => a,
            None => {
                return Err(MathError::Overflow);
            },
        };
        match get_delta_y(
            calculate_sqrt_price(lower_tick),
            current_sqrt_price,
            liquidity_delta,
            liquidity_sign,
        ) {
            Some(amount_y) => Ok((amount_x, amount_y)),
            None => Err(MathError::Overflow),
        }
    } else {
        match get_delta_y(
            calculate_sqrt_price(lower_tick),
            calculate_sqrt_price(upper_tick),
            liquidity_delta,
            liquidity_sign,
        ) {
            Some(amount_y) => Ok((TokenAmount(0), amount_y)),
            None => Err(MathError::Overflow),
        }
    }
}

/// LP tokens corresponding to a liquidity change: the seed rate while the
/// position is empty, else share-proportional with the given rounding.
pub open spec fn liq_to_lp_val(supply: int, current: int, delta: int, round_up: bool) -> int {
    if current == 0 {
        delta / (ONE_LP_TOKEN as int)
    } else if round_up {
        div_ceil(delta * supply, current)
    } else {
        delta * supply / current
    }
}

/// Converts a liquidity change into an LP-token change against the current
/// supply. Minting rounds down and burning rounds up, so the pool is always
/// favoured; the seed rate applies while the position holds no liquidity.
pub fn liquidity_to_lp_token_amount(
    lp_token_supply: TokenAmount,
    current_liquidity: Liquidity,
    liquidity_delta: Liquidity,
    rounding_up: bool,
) -> (r: Result<TokenAmount, MathError>)
    ensures
        r is Ok <==> liq_to_lp_val(
            lp_token_supply.0 as int,
            current_liquidity.v as int,
            liquidity_delta.v as int,
            rounding_up,
        ) <= u64::MAX,
        r matches Ok(t) ==> t.0 == liq_to_lp_val(
            lp_token_supply.0 as int,
            current_liquidity.v as int,
            liquidity_delta.v as int,
            rounding_up,
        ),
        r is Err ==> r == Err::<TokenAmount, MathError>(MathError::Overflow),
{
    if current_liquidity.v == 0 {
        let val = liquidity_delta.v / (ONE_LP_TOKEN as u128);
        if val <= u64::MAX as u128 {
            return Ok(TokenAmount(val as u64));
        } else {
            return Err(MathError::Overflow);
        }
    }
    let (p_hi, p_lo) = mul_wide(liquidity_delta.v, lp_token_supply.0 as u128);
    let (q_hi, q_lo, rem) = div_wide(p_hi, p_lo, current_liquidity.v);
    if rounding_up {
        proof {
            lemma_div_ceil_adjust(
                (liquidity_delta.v * lp_token_supply.0) as int,
                current_liquidity.v as int,
            );
        }
        if q_hi != 0 {
            proof {
                assert(wval(q_hi as int, q_lo as int) > u64::MAX);
            }
            Err(MathError::Overflow)
        } else if rem == 0 {
            if q_lo <= u64::MAX as u128 {
                Ok(TokenAmount(q_lo as u64))
            } else {
                Err(MathError::Overflow)
            }
        } else {
            if q_lo < u64::MAX as u128 {
                Ok(TokenAmount((q_lo + 1) as u64))
            } else {
                Err(MathError::Overflow)
            }
        }
    } else {
        if q_hi == 0 && q_lo <= u64::MAX as u128 {
            Ok(TokenAmount(q_lo as u64))
        } else {
            proof {
                if q_hi != 0 {
                    assert(wval(q_hi as int, q_lo as int) > u64::MAX);
                }
            }
            Err(MathError::Overflow)
        }
    }
}

/// The liquidity represented by an LP-token change: the seed rate while no
/// tokens exist, else share-proportional, truncated.
pub open spec fn lp_to_liq_val(supply: int, current: int, delta: int) -> int {
    if supply == 0 {
        delta * (ONE_LP_TOKEN as int)
    } else {
        delta * current / supply
    }
}

/// Converts an LP-token change back into liquidity against the current
/// supply, truncating in the pool's favour.
pub fn lp_token_amount_to_liquidity(
    lp_token_supply: TokenAmount,
    current_liquidity: Liquidity,
    lp_token_amount_delta: TokenAmount,
) -> (r: Result<Liquidity, MathError>)
    ensures
        r is Ok <==> lp_to_liq_val(
            lp_token_supply.0 as int,
            current_liquidity.v as int,
            lp_token_amount_delta.0 as int,
        ) <= u128::MAX,
        r matches Ok(l) ==> l.v == lp_to_liq_val(
            lp_token_supply.0 as int,
            current_liquidity.v as int,
            lp_token_amount_delta.0 as int,
        ),
        r is Err ==> r == Err::<Liquidity, MathError>(MathError::Overflow),
{
    if lp_token_supply.0 == 0 {
        proof {
            assert(lp_token_amount_delta.0 * ONE_LP_TOKEN
                <= 0xffff_ffff_ffff_ffff * (ONE_LP_TOKEN as int)) by (nonlinear_arith)
                requires lp_token_amount_delta.0 <= 0xffff_ffff_ffff_ffff;
        }
        return Ok(Liquidity { v: (lp_token_amount_delta.0 as u128) * (ONE_LP_TOKEN as u128) });
    }
    let (p_hi, p_lo) = mul_wide(lp_token_amount_delta.0 as u128, current_liquidity.v);
    let (q_hi, q_lo, _rem) = div_wide(p_hi, p_lo, lp_token_supply.0 as u128);
    if q_hi == 0 {
        Ok(Liquidity { v: q_lo })
    } else {
        proof {
            assert(wval(q_hi as int, q_lo as int) > u128::MAX);
        }
        Err(MathError::Overflow)
    }
}


/// The table walk starting from one whole unit never falls below it.
pub proof fn lemma_price_chain_at_least_one(t: u32, k: int)
    requires
        0 <= k <= 18,
    ensures
        price_chain(t, k) >= FIXED_POINT_ONE,
    decreases k,
{
    if k > 0 {
        lemma_price_chain_at_least_one(t, k - 1);
        let prev = price_chain(t, k - 1);
        let f = tick_factor(k - 1);
        assert(f >= FIXED_POINT_ONE);
        if t & tick_mask(k - 1) != 0 {
            assert(prev * f / (FIXED_POINT_ONE as int) >= prev) by (nonlinear_arith)
                requires prev >= 0, f >= FIXED_POINT_ONE;
        }
    }
}

/// The price of tick zero is exactly one whole unit.
pub proof fn lemma_sqrt_price_at_zero()
    ensures
        sqrt_price_of_tick(0) == PRICE_ONE,
{
    assert(0u32 & 0x1u32 == 0u32 && 0u32 & 0x2u32 == 0u32 && 0u32 & 0x4u32 == 0u32 && 0u32 & 0x8u32 == 0u32 && 0u32 & 0x10u32 == 0u32 && 0u32 & 0x20u32 == 0u32 && 0u32 & 0x40u32 == 0u32 && 0u32 & 0x80u32 == 0u32 && 0u32 & 0x100u32 == 0u32 && 0u32 & 0x200u32 == 0u32 && 0u32 & 0x400u32 == 0u32 && 0u32 & 0x800u32 == 0u32 && 0u32 & 0x1000u32 == 0u32 && 0u32 & 0x2000u32 == 0u32 && 0u32 & 0x4000u32 == 0u32 && 0u32 & 0x8000u32 == 0u32 && 0u32 & 0x1_0000u32 == 0u32 && 0u32 & 0x2_0000u32 == 0u32) by (bit_vector);
    assert(price_chain(0u32, 0) == FIXED_POINT_ONE);
    assert(price_chain(0u32, 1) == FIXED_POINT_ONE);
    assert(price_chain(0u32, 2) == FIXED_POINT_ONE);
    assert(price_chain(0u32, 3) == FIXED_POINT_ONE);
    assert(price_chain(0u32, 4) == FIXED_POINT_ONE);
    assert(price_chain(0u32, 5) == FIXED_POINT_ONE);
    assert(price_chain(0u32, 6) == FIXED_POINT_ONE);
    assert(price_chain(0u32, 7) == FIXED_POINT_ONE);
    assert(price_chain(0u32, 8) == FIXED_POINT_ONE);
    assert(price_chain(0u32, 9) == FIXED_POINT_ONE);
    assert(price_chain(0u32, 10) == FIXED_POINT_ONE);
    assert(price_chain(0u32, 11) == FIXED_POINT_ONE);
    assert(price_chain(0u32, 12) == FIXED_POINT_ONE);
    assert(price_chain(0u32, 13) == FIXED_POINT_ONE);
    assert(price_chain(0u32, 14) == FIXED_POINT_ONE);
    assert(price_chain(0u32, 15) == FIXED_POINT_ONE);
    assert(price_chain(0u32, 16) == FIXED_POINT_ONE);
    assert(price_chain(0u32, 17) == FIXED_POINT_ONE);
    assert(price_chain(0u32, 18) == FIXED_POINT_ONE);
}

/// The price of a negative tick is the reciprocal of its positive twin,
/// exact to one rounding unit: the product never exceeds one, and one more
/// rounding unit on the negative side would push it above one.
pub proof fn lemma_sqrt_price_reciprocal(tick: int)
    requires
        0 < tick <= MAX_TICK,
    ensures
        sqrt_price_of_tick(tick) * sqrt_price_of_tick(-tick) <= PRICE_ONE * PRICE_ONE,
        sqrt_price_of_tick(tick) * (sqrt_price_of_tick(-tick) + FIXED_POINT_ONE)
            > PRICE_ONE * PRICE_ONE,
{
    let fpone = FIXED_POINT_ONE as int;
    let t = tick as u32;
    assert((-tick) < 0);
    assert((if -tick >= 0 { -tick } else { -(-tick) }) == tick);
    lemma_price_chain_at_least_one(t, 18);
    let chain = price_chain(t, 18);
    let pos = sqrt_price_of_tick(tick);
    let neg = sqrt_price_of_tick(-tick);
    let recip = (FIXED_POINT_ONE * FIXED_POINT_ONE) as int / chain;
    assert(pos == chain * fpone);
    assert(neg == recip * fpone);
    lemma_fundamental_div_mod((FIXED_POINT_ONE * FIXED_POINT_ONE) as int, chain);
    lemma_mod_bound((FIXED_POINT_ONE * FIXED_POINT_ONE) as int, chain);
    // chain * recip <= 10^24 < chain * (recip + 1)
    assert(chain * recip <= (FIXED_POINT_ONE * FIXED_POINT_ONE) as int);
    assert(chain * (recip + 1) > (FIXED_POINT_ONE * FIXED_POINT_ONE) as int) by (nonlinear_arith)
        requires
            (FIXED_POINT_ONE * FIXED_POINT_ONE) as int == chain * recip
                + ((FIXED_POINT_ONE * FIXED_POINT_ONE) as int % chain),
            (FIXED_POINT_ONE * FIXED_POINT_ONE) as int % chain < chain,
    ;
    // scale both sides by 10^12 * 10^12
    assert(pos * neg == (chain * recip) * (fpone * fpone)) by (nonlinear_arith)
        requires pos == chain * fpone, neg == recip * fpone;
    assert(pos * (neg + fpone) == (chain * (recip + 1)) * (fpone * fpone)) by (nonlinear_arith)
        requires pos == chain * fpone, neg == recip * fpone;
    assert((chain * recip) * (fpone * fpone)
        <= ((FIXED_POINT_ONE * FIXED_POINT_ONE) as int) * (fpone * fpone)) by (nonlinear_arith)
        requires chain * recip <= (FIXED_POINT_ONE * FIXED_POINT_ONE) as int;
    assert((chain * (recip + 1)) * (fpone * fpone)
        > ((FIXED_POINT_ONE * FIXED_POINT_ONE) as int) * (fpone * fpone)) by (nonlinear_arith)
        requires chain * (recip + 1) > (FIXED_POINT_ONE * FIXED_POINT_ONE) as int, fpone > 0;
    assert(((FIXED_POINT_ONE * FIXED_POINT_ONE) as int) * (fpone * fpone)
        == (PRICE_ONE as int) * (PRICE_ONE as int));
}


/// More liquidity never moves fewer X tokens: `delta_x_val` is monotone in
/// the liquidity, for either rounding direction.
pub proof fn lemma_delta_x_monotone(a: int, b: int, l1: int, l2: int, up: bool)
    requires
        0 <= l1 <= l2,
        delta_x_den(a, b, up) > 0,
    ensures
        delta_x_val(a, b, l1, up) <= delta_x_val(a, b, l2, up),
{
    let lone = LIQUIDITY_ONE as int;
    let dp = price_diff(a, b);
    let den = delta_x_den(a, b, up);
    lemma_mul_inequality(l1, l2, dp);
    assert(dp * l1 <= dp * l2) by (nonlinear_arith)
        requires l1 * dp <= l2 * dp;
    lemma_div_is_ordered(dp * l1, dp * l2, lone);
    let nom1 = dp * l1 / lone;
    let nom2 = dp * l2 / lone;
    if up {
        lemma_div_is_ordered(nom1 + den - 1, nom2 + den - 1, den);
    } else {
        lemma_div_is_ordered(nom1, nom2, den);
    }
}

/// More liquidity never moves fewer Y tokens: `delta_y_val` is monotone in
/// the liquidity, for either rounding direction.
pub proof fn lemma_delta_y_monotone(a: int, b: int, l1: int, l2: int, up: bool)
    requires
        0 <= l1 <= l2,
    ensures
        delta_y_val(a, b, l1, up) <= delta_y_val(a, b, l2, up),
{
    let scale = (LIQUIDITY_ONE * PRICE_ONE) as int;
    let dp = price_diff(a, b);
    lemma_mul_inequality(l1, l2, dp);
    assert(dp * l1 <= dp * l2) by (nonlinear_arith)
        requires l1 * dp <= l2 * dp;
    if up {
        lemma_div_is_ordered(dp * l1 + scale - 1, dp * l2 + scale - 1, scale);
    } else {
        lemma_div_is_ordered(dp * l1, dp * l2, scale);
    }
}

/// More liquidity never moves fewer tokens on either side: the token cost
/// of a range is monotone in the liquidity it carries. Only the larger
/// liquidity's cost needs to be accepted: it supplies the shared nonzero
/// price-product denominator.
pub proof fn lemma_amount_delta_monotone(
    current_sqrt_price: int,
    l1: int,
    l2: int,
    liquidity_sign: bool,
    current_tick_index: int,
    lower_tick: int,
    upper_tick: int,
)
    requires
        0 <= l1 <= l2,
        amount_delta_result(
            current_sqrt_price, l2, liquidity_sign, current_tick_index, lower_tick, upper_tick,
        ) is Ok,
    ensures
        amount_delta_x_of(
            current_sqrt_price, l1, liquidity_sign, current_tick_index, lower_tick, upper_tick,
        ) <= amount_delta_x_of(
            current_sqrt_price, l2, liquidity_sign, current_tick_index, lower_tick, upper_tick,
        ),
        amount_delta_y_of(
            current_sqrt_price, l1, liquidity_sign, current_tick_index, lower_tick, upper_tick,
        ) <= amount_delta_y_of(
            current_sqrt_price, l2, liquidity_sign, current_tick_index, lower_tick, upper_tick,
        ),
{
    let lower = sqrt_price_of_tick(lower_tick);
    let upper = sqrt_price_of_tick(upper_tick);
    if current_tick_index < lower_tick {
        lemma_delta_x_monotone(lower, upper, l1, l2, liquidity_sign);
    } else if current_tick_index < upper_tick {
        lemma_delta_x_monotone(current_sqrt_price, upper, l1, l2, liquidity_sign);
        lemma_delta_y_monotone(lower, current_sqrt_price, l1, l2, liquidity_sign);
    } else {
        lemma_delta_y_monotone(lower, upper, l1, l2, liquidity_sign);
    }
}

/// Converting a liquidity change to LP tokens (rounded down, as a mint is)
/// and back (truncated) never yields more liquidity than first put in: the
/// rounding of the share conversions favours the pool.
pub proof fn lemma_lp_conversion_round_trip(supply: int, current: int, delta: int)
    requires
        0 <= supply,
        0 <= current,
        0 <= delta,
        current == 0 ==> supply == 0,
    ensures
        ({
            let minted = liq_to_lp_val(supply, current, delta, false);
            lp_to_liq_val(supply + minted, current + delta, minted) <= delta
        }),
{
    let minted = liq_to_lp_val(supply, current, delta, false);
    if current == 0 {
        let olt = ONE_LP_TOKEN as int;
        lemma_div_pos_is_pos(delta, olt);
        assert(minted == delta / olt);
        if supply + minted == 0 {
            assert(minted == 0);
        } else {
            // the seed conversion is exact: minted * delta / minted == delta
            assert(minted * (0 + delta) == delta * (supply + minted) + 0) by (nonlinear_arith)
                requires supply == 0;
            lemma_fundamental_div_mod_converse(minted * (0 + delta), supply + minted, delta, 0);
        }
    } else {
        lemma_mul_nonnegative(delta, supply);
        lemma_div_pos_is_pos(delta * supply, current);
        assert(minted == delta * supply / current);
        if supply + minted == 0 {
            assert(supply == 0 && minted == 0);
            assert(lp_to_liq_val(supply + minted, current + delta, minted) == 0);
        } else {
            lemma_fundamental_div_mod(delta * supply, current);
            lemma_mod_bound(delta * supply, current);
            assert(minted * current <= delta * supply) by (nonlinear_arith)
                requires
                    delta * supply == current * minted + (delta * supply) % current,
                    (delta * supply) % current >= 0,
            ;
            assert(minted * (current + delta) <= delta * (supply + minted)) by (nonlinear_arith)
                requires minted * current <= delta * supply;
            lemma_div_is_ordered(
                minted * (current + delta),
                delta * (supply + minted),
                supply + minted,
            );
            lemma_fundamental_div_mod_converse(
                delta * (supply + minted),
                supply + minted,
                delta,
                0,
            );
        }
    }
}

/// Largest usable tick for a tick spacing: `(TICK_LIMIT - 1) * spacing`,
/// clamped to `MAX_TICK`.
pub fn get_max_tick(tick_spacing: u16) -> (r: i32)
    ensures
        r == if (TICK_LIMIT - 1) * tick_spacing <= MAX_TICK {
            (TICK_LIMIT - 1) * tick_spacing
        } else {
            MAX_TICK as int
        },
        0 <= r <= MAX_TICK,
{
    proof {
        assert((TICK_LIMIT - 1) * tick_spacing <= (TICK_LIMIT - 1) * 65536
            && 0 <= (TICK_LIMIT - 1) * tick_spacing) by (nonlinear_arith)
            requires 0 <= tick_spacing <= 65536;
    }
    let limit_by_space: i64 = (TICK_LIMIT as i64 - 1) * (tick_spacing as i64);
    if limit_by_space <= MAX_TICK as i64 {
        limit_by_space as i32
    } else {
        MAX_TICK
    }
}

/// Smallest usable tick for a tick spacing: the negation of `get_max_tick`.
pub fn get_min_tick(tick_spacing: u16) -> (r: i32)
    ensures
        r == if (1 - TICK_LIMIT) * tick_spacing >= -MAX_TICK {
            (1 - TICK_LIMIT) * tick_spacing
        } else {
            -MAX_TICK as int
        },
        -MAX_TICK <= r <= 0,
{
    proof {
        assert((1 - TICK_LIMIT) * tick_spacing >= (1 - TICK_LIMIT) * 65536
            && (1 - TICK_LIMIT) * tick_spacing <= 0) by (nonlinear_arith)
            requires 0 <= tick_spacing <= 65536;
    }
    let limit_by_space: i64 = (1 - TICK_LIMIT as i64) * (tick_spacing as i64);
    if limit_by_space >= -(MAX_TICK as i64) {
        limit_by_space as i32
    } else {
        -MAX_TICK
    }
}

} // verus!
