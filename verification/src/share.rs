//! Share accounting: a single full-range position's liquidity represented as
//! a fungible LP-token supply.
//!
//! One call of [`compute_lp_share_change`] prices a deposit or withdrawal:
//! it values the current position, carries any residual dust forward as a
//! leftover, prices the new position, and converts the liquidity change into
//! an LP-token change. Every rounding decision favours the pool: amounts a
//! depositor owes round up, amounts paid out round down, minted LP tokens
//! round down, burned LP tokens round up.

use vstd::prelude::*;

use crate::decimals::{Liquidity, MathError, Price, TokenAmount};
use crate::math::{amount_delta_result, amount_delta_x_of, amount_delta_y_of,
    calculate_amount_delta, lemma_amount_delta_components, lemma_amount_delta_monotone,
    lemma_lp_conversion_round_trip, liq_to_lp_val, liquidity_to_lp_token_amount, lp_to_liq_val};
use crate::{MAX_TICK, ONE_LP_TOKEN, TICK_LIMIT};

verus! {

/// One continuous liquidity range.
#[derive(Clone, Copy, Debug, PartialEq, Eq, Structural)]
pub struct PositionDetails {
    pub lower_tick: i32,
    pub upper_tick: i32,
    pub liquidity: Liquidity,
}

/// The full outcome of one share-accounting call: the position after the
/// change, the token amounts moved, the LP-token change if any, and the
/// leftover dust carried to the next call.
#[derive(Clone, Copy, Debug, PartialEq, Eq)]
pub struct LiquidityChangeResult {
    pub positions_details: PositionDetails,
    pub transferred_amounts: (TokenAmount, TokenAmount),
    pub lp_token_change: Option<TokenAmount>,
    pub leftover_amounts: (TokenAmount, TokenAmount),
}

/// The largest usable tick for a tick spacing, as `get_max_tick` computes it.
pub open spec fn max_tick_of_spacing(tick_spacing: int) -> int {
    if (TICK_LIMIT - 1) * tick_spacing <= MAX_TICK {
        (TICK_LIMIT - 1) * tick_spacing
    } else {
        MAX_TICK as int
    }
}

/// The full outcome of `compute_lp_share_change`, including the exact input
/// regions of each failure.
pub open spec fn share_change_result(
    provide_liquidity: bool,
    lp_token_supply: int,
    liquidity_delta: int,
    current_liquidity: int,
    x_before: int,
    y_before: int,
    tick_spacing: int,
    current_tick_index: int,
    current_sqrt_price: int,
) -> Result<LiquidityChangeResult, MathError> {
    let max_tick = max_tick_of_spacing(tick_spacing);
    let min_tick = -max_tick;
    match amount_delta_result(
        current_sqrt_price,
        current_liquidity,
        provide_liquidity,
        current_tick_index,
        min_tick,
        max_tick,
    ) {
        Err(e) => Err(e),
        Ok(old_amounts) => {
            let old_x = old_amounts.0.0 as int;
            let old_y = old_amounts.1.0 as int;
            if old_x > x_before || old_y > y_before {
                Err(MathError::Underflow)
            } else {
                let leftover_x = x_before - old_x;
                let leftover_y = y_before - old_y;
                if liquidity_delta == 0 {
                    Ok(LiquidityChangeResult {
                        positions_details: PositionDetails {
                            lower_tick: min_tick as i32,
                            upper_tick: max_tick as i32,
                            liquidity: Liquidity { v: current_liquidity as u128 },
                        },
                        transferred_amounts: (TokenAmount(0), TokenAmount(0)),
                        lp_token_change: None,
                        leftover_amounts: (
                            TokenAmount(leftover_x as u64),
                            TokenAmount(leftover_y as u64),
                        ),
                    })
                } else if provide_liquidity && current_liquidity + liquidity_delta > u128::MAX {
                    Err(MathError::Overflow)
                } else if !provide_liquidity && liquidity_delta > current_liquidity {
                    Err(MathError::InsufficientLiquidity)
                } else {
                    let new_liquidity = if provide_liquidity {
                        current_liquidity + liquidity_delta
                    } else {
                        current_liquidity - liquidity_delta
                    };
                    match amount_delta_result(
                        current_sqrt_price,
                        new_liquidity,
                        provide_liquidity,
                        current_tick_index,
                        min_tick,
                        max_tick,
                    ) {
                        Err(e) => Err(e),
                        Ok(new_amounts) => {
                            let new_x = new_amounts.0.0 as int;
                            let new_y = new_amounts.1.0 as int;
                            // the cost of a range is monotone in its liquidity
                            // (`lemma_amount_delta_monotone`), so these two
                            // branches never fire; they mirror the checked
                            // subtractions of the executable code
                            if provide_liquidity && (new_x < old_x || new_y < old_y) {
                                Err(MathError::Underflow)
                            } else if !provide_liquidity && (new_x > old_x || new_y > old_y) {
                                Err(MathError::Underflow)
                            } else {
                                let transferred_x = if provide_liquidity {
                                    new_x - old_x
                                } else {
                                    old_x - new_x
                                };
                                let transferred_y = if provide_liquidity {
                                    new_y - old_y
                                } else {
                                    old_y - new_y
                                };
                                if transferred_x == 0 && transferred_y == 0 {
                                    Err(MathError::AmountTooSmall)
                                } else {
                                    let lp_change = liq_to_lp_val(
                                        lp_token_supply,
                                        current_liquidity,
                                        liquidity_delta,
                                        !provide_liquidity,
                                    );
                                    if lp_change > u64::MAX {
                                        Err(MathError::Overflow)
                                    } else if lp_change == 0 {
                                        Err(MathError::ShareChangeTooSmall)
                                    } else {
                                        Ok(LiquidityChangeResult {
                                            positions_details: PositionDetails {
                                                lower_tick: min_tick as i32,
                                                upper_tick: max_tick as i32,
                                                liquidity: Liquidity { v: new_liquidity as u128 },
                                            },
                                            transferred_amounts: (
                                                TokenAmount(transferred_x as u64),
                                                TokenAmount(transferred_y as u64),
                                            ),
                                            lp_token_change: Some(TokenAmount(lp_change as u64)),
                                            leftover_amounts: (
                                                TokenAmount(leftover_x as u64),
                                                TokenAmount(leftover_y as u64),
                                            ),
                                        })
                                    }
                                }
                            }
                        },
                    }
                }
            }
        },
    }
}

/// Prices a liquidity deposit into, or withdrawal from, the full-range
/// position behind an LP-token supply.
///
/// The current position is valued over the full range; any part of the
/// accumulated balances it does not explain is kept verbatim as a leftover.
/// A zero delta only reports the position and leftovers. Otherwise the
/// liquidity change is priced over the full range, the difference is what
/// the caller moves, and the LP-token change is the share-proportional
/// conversion. Every rounding direction is set against the acting party: a
/// deposit prices both positions rounding up, a withdrawal prices both
/// rounding down, minted tokens round down and burned tokens round up. A
/// withdrawal beyond the position's liquidity, a change that moves no
/// token, and a change that mints or burns no LP token are rejected.
pub fn compute_lp_share_change(
    provide_liquidity: bool,
    lp_token_supply: TokenAmount,
    liquidity_delta: Liquidity,
    current_liquidity: Liquidity,
    x_before: TokenAmount,
    y_before: TokenAmount,
    tick_spacing: u16,
    current_tick_index: i32,
    current_sqrt_price: Price,
) -> (r: Result<LiquidityChangeResult, MathError>)
    ensures
        r == share_change_result(
            provide_liquidity,
            lp_token_supply.0 as int,
            liquidity_delta.v as int,
            current_liquidity.v as int,
            x_before.0 as int,
            y_before.0 as int,
            tick_spacing as int,
            current_tick_index as int,
            current_sqrt_price.v as int,
        ),
        liquidity_delta.v == 0 && r is Ok ==> {
            let res = r->Ok_0;
            &&& res.transferred_amounts == (TokenAmount(0), TokenAmount(0))
            &&& res.lp_token_change is None
            &&& res.positions_details.liquidity == current_liquidity
        },
        !provide_liquidity && liquidity_delta.v > current_liquidity.v && liquidity_delta.v > 0
            ==> r is Err,
{
    let max_tick = crate::math::get_max_tick(tick_spacing);
    let min_tick = -max_tick;
    let (old_x, old_y) = match calculate_amount_delta(
        current_sqrt_price,
        current_liquidity,
        provide_liquidity,
        current_tick_index,
        min_tick,
        max_tick,
    ) {
        Ok(amounts) => amounts,
        Err(e) => {
            return Err(e);
        },
    };
    let leftover_x = match x_before.checked_sub(old_x) {
        Ok(a) => a,
        Err(_) => {
            return Err(MathError::Underflow);
        },
    };
    let leftover_y = match y_before.checked_sub(old_y) {
        Ok(a) => a,
        Err(_) => {
            return Err(MathError::Underflow);
        },
    };
    if liquidity_delta.v == 0 {
        return Ok(LiquidityChangeResult {
            positions_details: PositionDetails {
                lower_tick: min_tick,
                upper_tick: max_tick,
                liquidity: current_liquidity,
            },
            transferred_amounts: (TokenAmount(0), TokenAmount(0)),
            lp_token_change: None,
            leftover_amounts: (leftover_x, leftover_y),
        });
    }
    let new_liquidity = if provide_liquidity {
        match current_liquidity.checked_add(liquidity_delta) {
            Ok(l) => l,
            Err(e) => {
                return Err(e);
            },
        }
    } else {
        match current_liquidity.checked_sub(liquidity_delta) {
            Ok(l) => l,
            Err(_) => {
                return Err(MathError::InsufficientLiquidity);
            },
        }
    };
    let (new_x, new_y) = match calculate_amount_delta(
        current_sqrt_price,
        new_liquidity,
        provide_liquidity,
        current_tick_index,
        min_tick,
        max_tick,
    ) {
        Ok(amounts) => amounts,
        Err(e) => {
            return Err(e);
        },
    };
    let transferred_x = if provide_liquidity {
        match new_x.checked_sub(old_x) {
            Ok(a) => a,
            Err(_) => {
                return Err(MathError::Underflow);
            },
        }
    } else {
        match old_x.checked_sub(new_x) {
            Ok(a) => a,
            Err(_) => {
                return Err(MathError::Underflow);
            },
        }
    };
    let transferred_y = if provide_liquidity {
        match new_y.checked_sub(old_y) {
            Ok(a) => a,
            Err(_) => {
                return Err(MathError::Underflow);
            },
        }
    } else {
        match old_y.checked_sub(new_y) {
            Ok(a) => a,
            Err(_) => {
                return Err(MathError::Underflow);
            },
        }
    };
    if transferred_x.0 == 0 && transferred_y.0 == 0 {
        return Err(MathError::AmountTooSmall);
    }
    let lp_token_change = match liquidity_to_lp_token_amount(
        lp_token_supply,
        current_liquidity,
        liquidity_delta,
        !provide_liquidity,
    ) {
        Ok(t) => t,
        Err(e) => {
            return Err(e);
        },
    };
    if lp_token_change.0 == 0 {
        return Err(MathError::ShareChangeTooSmall);
    }
    Ok(LiquidityChangeResult {
        positions_details: PositionDetails {
            lower_tick: min_tick,
            upper_tick: max_tick,
            liquidity: new_liquidity,
        },
        transferred_amounts: (transferred_x, transferred_y),
        lp_token_change: Some(lp_token_change),
        leftover_amounts: (leftover_x, leftover_y),
    })
}

/// Settles a withdrawal's outcome against the pool's leftover accounts.
///
/// A full exit — the burned LP tokens are the whole supply — also pays the
/// accumulated leftovers out with the transferred amounts and clears them;
/// any smaller withdrawal keeps the leftovers in the pool. The flag says
/// whether the underlying position is now closed.
pub fn settle_withdrawal(
    lp_token_change: TokenAmount,
    lp_token_supply: TokenAmount,
    transferred: (TokenAmount, TokenAmount),
    leftover: (TokenAmount, TokenAmount),
) -> (r: Result<((TokenAmount, TokenAmount), (TokenAmount, TokenAmount), bool), MathError>)
    ensures
        lp_token_change.0 == lp_token_supply.0 ==> {
            &&& (r is Ok <==> transferred.0.0 + leftover.0.0 <= u64::MAX
                && transferred.1.0 + leftover.1.0 <= u64::MAX)
            &&& (r matches Ok(out) ==> out == (
                (
                    TokenAmount((transferred.0.0 + leftover.0.0) as u64),
                    TokenAmount((transferred.1.0 + leftover.1.0) as u64),
                ),
                (TokenAmount(0), TokenAmount(0)),
                true,
            ))
        },
        lp_token_change.0 != lp_token_supply.0 ==> r == Ok::<_, MathError>(
            (transferred, leftover, false),
        ),
{
    if lp_token_change.0 == lp_token_supply.0 {
        let out_x = match transferred.0.checked_add(leftover.0) {
            Ok(a) => a,
            Err(e) => {
                return Err(e);
            },
        };
        let out_y = match transferred.1.checked_add(leftover.1) {
            Ok(a) => a,
            Err(e) => {
                return Err(e);
            },
        };
        Ok(((out_x, out_y), (TokenAmount(0), TokenAmount(0)), true))
    } else {
        Ok((transferred, leftover, false))
    }
}

/// Round trip: LP tokens minted by a deposit, when burned right away,
/// return at most the token amounts the deposit moved in, so the
/// pool-favouring rounding never lets the acting party profit from the pair
/// of calls.
///
/// A deposit prices both positions rounding up and a withdrawal prices both
/// rounding down, so the law needs the rounding spread of the combined
/// position to be at least the current position's on each token side: only
/// where the combined position's exact cost lands on a whole token while
/// the current one's does not is the pair of operations outside this
/// statement.
pub proof fn lemma_mint_burn_round_trip(
    lp_token_supply: int,
    liquidity_delta: int,
    current_liquidity: int,
    x_before: int,
    y_before: int,
    tick_spacing: int,
    current_tick_index: int,
    current_sqrt_price: int,
)
    requires
        0 <= lp_token_supply,
        0 < liquidity_delta,
        0 <= current_liquidity,
        0 <= x_before,
        0 <= y_before,
        current_liquidity == 0 ==> lp_token_supply == 0,
        ({
            let max_tick = max_tick_of_spacing(tick_spacing);
            let min_tick = -max_tick;
            let combined = current_liquidity + liquidity_delta;
            &&& amount_delta_x_of(
                current_sqrt_price, combined, true, current_tick_index, min_tick, max_tick,
            ) - amount_delta_x_of(
                current_sqrt_price, combined, false, current_tick_index, min_tick, max_tick,
            ) >= amount_delta_x_of(
                current_sqrt_price, current_liquidity, true, current_tick_index, min_tick, max_tick,
            ) - amount_delta_x_of(
                current_sqrt_price, current_liquidity, false, current_tick_index, min_tick, max_tick,
            )
            &&& amount_delta_y_of(
                current_sqrt_price, combined, true, current_tick_index, min_tick, max_tick,
            ) - amount_delta_y_of(
                current_sqrt_price, combined, false, current_tick_index, min_tick, max_tick,
            ) >= amount_delta_y_of(
                current_sqrt_price, current_liquidity, true, current_tick_index, min_tick, max_tick,
            ) - amount_delta_y_of(
                current_sqrt_price, current_liquidity, false, current_tick_index, min_tick, max_tick,
            )
        }),
        share_change_result(
            true, lp_token_supply, liquidity_delta, current_liquidity,
            x_before, y_before, tick_spacing, current_tick_index, current_sqrt_price,
        ) is Ok,
        ({
            let deposit = share_change_result(
                true, lp_token_supply, liquidity_delta, current_liquidity,
                x_before, y_before, tick_spacing, current_tick_index, current_sqrt_price,
            )->Ok_0;
            let minted = deposit.lp_token_change->Some_0.0 as int;
            let burned_liquidity = lp_to_liq_val(
                lp_token_supply + minted, current_liquidity + liquidity_delta, minted,
            );
            share_change_result(
                false,
                lp_token_supply + minted,
                burned_liquidity,
                current_liquidity + liquidity_delta,
                x_before + deposit.transferred_amounts.0.0,
                y_before + deposit.transferred_amounts.1.0,
                tick_spacing,
                current_tick_index,
                current_sqrt_price,
            ) is Ok
        }),
    ensures
        ({
            let deposit = share_change_result(
                true, lp_token_supply, liquidity_delta, current_liquidity,
                x_before, y_before, tick_spacing, current_tick_index, current_sqrt_price,
            )->Ok_0;
            let minted = deposit.lp_token_change->Some_0.0 as int;
            let burned_liquidity = lp_to_liq_val(
                lp_token_supply + minted, current_liquidity + liquidity_delta, minted,
            );
            let withdrawal = share_change_result(
                false,
                lp_token_supply + minted,
                burned_liquidity,
                current_liquidity + liquidity_delta,
                x_before + deposit.transferred_amounts.0.0,
                y_before + deposit.transferred_amounts.1.0,
                tick_spacing,
                current_tick_index,
                current_sqrt_price,
            )->Ok_0;
            &&& withdrawal.transferred_amounts.0.0 <= deposit.transferred_amounts.0.0
            &&& withdrawal.transferred_amounts.1.0 <= deposit.transferred_amounts.1.0
        }),
{
    let max_tick = max_tick_of_spacing(tick_spacing);
    let min_tick = -max_tick;
    let deposit = share_change_result(
        true, lp_token_supply, liquidity_delta, current_liquidity,
        x_before, y_before, tick_spacing, current_tick_index, current_sqrt_price,
    )->Ok_0;
    let minted = deposit.lp_token_change->Some_0.0 as int;
    let combined = current_liquidity + liquidity_delta;
    let burned_liquidity = lp_to_liq_val(lp_token_supply + minted, combined, minted);
    // the deposit's accepted path pins its fields against the up-rounded costs
    lemma_amount_delta_components(
        current_sqrt_price, current_liquidity, true, current_tick_index, min_tick, max_tick,
    );
    lemma_amount_delta_components(
        current_sqrt_price, combined, true, current_tick_index, min_tick, max_tick,
    );
    let old_x_up = amount_delta_x_of(
        current_sqrt_price, current_liquidity, true, current_tick_index, min_tick, max_tick,
    );
    let old_y_up = amount_delta_y_of(
        current_sqrt_price, current_liquidity, true, current_tick_index, min_tick, max_tick,
    );
    let new_x_up = amount_delta_x_of(
        current_sqrt_price, combined, true, current_tick_index, min_tick, max_tick,
    );
    let new_y_up = amount_delta_y_of(
        current_sqrt_price, combined, true, current_tick_index, min_tick, max_tick,
    );
    assert(minted == liq_to_lp_val(lp_token_supply, current_liquidity, liquidity_delta, false));
    assert(deposit.transferred_amounts.0.0 == new_x_up - old_x_up);
    assert(deposit.transferred_amounts.1.0 == new_y_up - old_y_up);
    // the burn never asks back more liquidity than the deposit added
    lemma_lp_conversion_round_trip(lp_token_supply, current_liquidity, liquidity_delta);
    assert(burned_liquidity <= liquidity_delta);
    assert(burned_liquidity >= 0) by {
        if lp_token_supply + minted == 0 {
            vstd::arithmetic::mul::lemma_mul_nonnegative(minted, ONE_LP_TOKEN as int);
        } else {
            vstd::arithmetic::mul::lemma_mul_nonnegative(minted, combined);
            vstd::arithmetic::div_mod::lemma_div_pos_is_pos(
                minted * combined, lp_token_supply + minted,
            );
        }
    }
    if burned_liquidity == 0 {
        // the burn then only reports the position: nothing is transferred,
        // while the deposit moved nonnegative amounts
        lemma_amount_delta_monotone(
            current_sqrt_price,
            current_liquidity,
            combined,
            true,
            current_tick_index,
            min_tick,
            max_tick,
        );
    } else {
        // the withdrawal's fields against the down-rounded costs
        lemma_amount_delta_components(
            current_sqrt_price, combined, false, current_tick_index, min_tick, max_tick,
        );
        lemma_amount_delta_components(
            current_sqrt_price, combined - burned_liquidity, false,
            current_tick_index, min_tick, max_tick,
        );
        let new_x_down = amount_delta_x_of(
            current_sqrt_price, combined, false, current_tick_index, min_tick, max_tick,
        );
        let new_y_down = amount_delta_y_of(
            current_sqrt_price, combined, false, current_tick_index, min_tick, max_tick,
        );
        let settled_x = amount_delta_x_of(
            current_sqrt_price, combined - burned_liquidity, false,
            current_tick_index, min_tick, max_tick,
        );
        let settled_y = amount_delta_y_of(
            current_sqrt_price, combined - burned_liquidity, false,
            current_tick_index, min_tick, max_tick,
        );
        // the burn leaves at least the starting liquidity behind, whose
        // down-rounded cost the spread hypothesis relates to the deposit's
        lemma_amount_delta_monotone(
            current_sqrt_price,
            current_liquidity,
            combined - burned_liquidity,
            false,
            current_tick_index,
            min_tick,
            max_tick,
        );
        assert(amount_delta_x_of(
            current_sqrt_price, current_liquidity, false, current_tick_index, min_tick, max_tick,
        ) <= settled_x);
        assert(amount_delta_y_of(
            current_sqrt_price, current_liquidity, false, current_tick_index, min_tick, max_tick,
        ) <= settled_y);
        assert(new_x_down - settled_x <= new_x_up - old_x_up);
        assert(new_y_down - settled_y <= new_y_up - old_y_up);
    }
}

} // verus!
