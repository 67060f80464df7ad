use clmm_shares::decimals::{FeeGrowth, Liquidity, MathError, Price, TokenAmount};
use clmm_shares::math::{
    calculate_amount_delta, calculate_price_sqrt, calculate_sqrt_price, calculate_x, calculate_y,
    get_delta_x, get_delta_y, get_liquidity_by_x_sqrt_price, get_liquidity_by_y_sqrt_price,
    get_max_liquidity, get_max_tick, get_min_tick, liquidity_to_lp_token_amount,
    lp_token_amount_to_liquidity,
};
use clmm_shares::share::{compute_lp_share_change, settle_withdrawal};
use clmm_shares::wide::mul_div_floor;
use clmm_shares::{MAX_TICK, ONE_LP_TOKEN, TICK_LIMIT};

const PRICE_ONE: u128 = 1_000_000_000_000_000_000_000_000;

#[test]
fn sqrt_price_at_zero_is_one() {
    assert_eq!(calculate_sqrt_price(0), Price::new(PRICE_ONE));
    assert_eq!(calculate_price_sqrt(0), Price::new(PRICE_ONE));
}

#[test]
fn sqrt_price_known_values() {
    assert_eq!(calculate_sqrt_price(1).v, 1000049998750000000000000);
    assert_eq!(calculate_sqrt_price(-1).v, 999950003749000000000000);
    assert_eq!(calculate_sqrt_price(2).v, 1000100000000000000000000);
    assert_eq!(calculate_sqrt_price(20000).v, 2718145925979000000000000);
    assert_eq!(calculate_sqrt_price(-20000).v, 367897834491000000000000);
    assert_eq!(calculate_sqrt_price(MAX_TICK).v, 65535383934512647000000000000);
    assert_eq!(calculate_sqrt_price(-MAX_TICK).v, 15258932000000000000);
}

#[test]
fn sqrt_price_increases_with_tick() {
    let samples = [-MAX_TICK, -20000, -2, -1, 0, 1, 2, 4, 5, 20000, MAX_TICK];
    for w in samples.windows(2) {
        assert!(calculate_sqrt_price(w[0]).v < calculate_sqrt_price(w[1]).v);
    }
}

#[test]
fn sqrt_price_reciprocal_within_rounding() {
    // p(-t) is the largest representable value whose product with p(t)
    // stays at or below 1: the reciprocal is exact to one rounding unit
    for t in [1, 2, 777, 20000, MAX_TICK] {
        let pos = calculate_sqrt_price(t).v;
        let neg = calculate_sqrt_price(-t).v;
        let product = mul_div_floor(pos, neg, PRICE_ONE).unwrap();
        assert!(product <= PRICE_ONE);
        let bumped = mul_div_floor(pos, neg + 1_000_000_000_000, PRICE_ONE).unwrap();
        assert!(bumped >= PRICE_ONE);
    }
}

#[test]
fn tick_limits_clamp_to_max_tick() {
    assert_eq!(get_max_tick(1), TICK_LIMIT - 1);
    assert_eq!(get_min_tick(1), 1 - TICK_LIMIT);
    assert_eq!(get_max_tick(5), (TICK_LIMIT - 1) * 5);
    assert_eq!(get_min_tick(5), (1 - TICK_LIMIT) * 5);
    assert_eq!(get_max_tick(6), MAX_TICK);
    assert_eq!(get_min_tick(6), -MAX_TICK);
    assert_eq!(get_max_tick(100), MAX_TICK);
    assert_eq!(get_min_tick(100), -MAX_TICK);
    assert_eq!(get_max_tick(u16::MAX), MAX_TICK);
    assert_eq!(get_min_tick(u16::MAX), -MAX_TICK);
}

#[test]
fn calculate_y_concrete() {
    assert_eq!(
        calculate_y(Price::new(PRICE_ONE), Liquidity::new(1_000_000), false).unwrap(),
        TokenAmount::new(1)
    );
    assert_eq!(
        calculate_y(Price::new(1), Liquidity::new(10_000_000), true).unwrap(),
        TokenAmount::new(1)
    );
    assert_eq!(
        calculate_y(Price::new(1), Liquidity::new(10_000_000), false).unwrap(),
        TokenAmount::new(0)
    );
}

#[test]
fn calculate_x_concrete() {
    assert_eq!(
        calculate_x(
            Price::new(PRICE_ONE),
            Price::new(2 * PRICE_ONE),
            Liquidity::new(3_000_000),
            false,
        )
        .unwrap(),
        TokenAmount::new(1)
    );
    assert_eq!(
        calculate_x(
            Price::new(PRICE_ONE),
            Price::new(2 * PRICE_ONE),
            Liquidity::new(3_000_000),
            true,
        )
        .unwrap(),
        TokenAmount::new(2)
    );
    assert_eq!(
        calculate_x(
            Price::new(PRICE_ONE),
            Price::new(0),
            Liquidity::new(3_000_000),
            false,
        )
        .unwrap_err(),
        MathError::DivisionByZero
    );
}

#[test]
fn delta_amounts_concrete() {
    assert_eq!(
        get_delta_y(
            Price::new(2 * PRICE_ONE),
            Price::new(PRICE_ONE),
            Liquidity::new(5_000_000),
            false,
        )
        .unwrap(),
        TokenAmount::new(5)
    );
    assert_eq!(
        get_delta_x(
            Price::new(PRICE_ONE),
            Price::new(2 * PRICE_ONE),
            Liquidity::new(5_000_000),
            true,
        )
        .unwrap(),
        TokenAmount::new(3)
    );
    // a liquidity too large for the token width overflows to None
    assert_eq!(
        get_delta_y(
            Price::new(2 * PRICE_ONE),
            Price::new(PRICE_ONE),
            Liquidity::new(u128::MAX),
            true,
        ),
        None
    );
    // a zero price product leaves delta-x undefined
    assert_eq!(
        get_delta_x(
            Price::new(0),
            Price::new(1),
            Liquidity::new(5_000_000),
            true,
        ),
        None
    );
}

#[test]
fn amount_delta_cases() {
    // below the range: all X
    let (x, y) = calculate_amount_delta(
        Price::from_integer(1),
        Liquidity::new(ONE_LP_TOKEN as u128),
        true,
        -50000,
        -44363,
        44363,
    )
    .unwrap();
    assert!(x.0 > 0);
    assert_eq!(y, TokenAmount::new(0));
    // inside the range: both sides
    let (x, y) = calculate_amount_delta(
        Price::from_integer(1),
        Liquidity::new(ONE_LP_TOKEN as u128),
        true,
        0,
        -44363,
        44363,
    )
    .unwrap();
    assert_eq!((x, y), (TokenAmount::new(2), TokenAmount::new(2)));
    // at or above the range: all Y
    let (x, y) = calculate_amount_delta(
        Price::from_integer(1),
        Liquidity::new(ONE_LP_TOKEN as u128),
        true,
        44363,
        -44363,
        44363,
    )
    .unwrap();
    assert_eq!(x, TokenAmount::new(0));
    assert!(y.0 > 0);
}

#[test]
fn max_liquidity_never_consumes_more_than_supplied() {
    for (x, y) in [(1000u64, 1000u64), (1u64, 1000u64), (1000u64, 1u64), (17u64, 5u64)] {
        let r = get_max_liquidity(
            TokenAmount::new(x),
            TokenAmount::new(y),
            -get_max_tick(1),
            get_max_tick(1),
            Price::from_integer(1),
            true,
        )
        .unwrap();
        assert!(r.x.0 <= x);
        assert!(r.y.0 <= y);
    }
}

#[test]
fn max_liquidity_rejects_bad_ticks() {
    let r = get_max_liquidity(
        TokenAmount::new(1),
        TokenAmount::new(1),
        -MAX_TICK - 1,
        MAX_TICK,
        Price::from_integer(1),
        true,
    );
    assert_eq!(r.unwrap_err(), MathError::InvalidTicks);
    let r = get_max_liquidity(
        TokenAmount::new(1),
        TokenAmount::new(1),
        10,
        10,
        Price::from_integer(1),
        true,
    );
    assert_eq!(r.unwrap_err(), MathError::InvalidTickRange);
}

#[test]
fn share_change_zero_delta_reports_leftovers() {
    let current_liquidity = get_max_liquidity(
        TokenAmount::new(1000),
        TokenAmount::new(1000),
        -get_max_tick(1),
        get_max_tick(1),
        Price::from_integer(1),
        true,
    )
    .unwrap();
    let val = compute_lp_share_change(
        true,
        TokenAmount::new(535),
        Liquidity::new(0),
        current_liquidity.l,
        TokenAmount::new(1005),
        TokenAmount::new(1007),
        1,
        0,
        Price::from_integer(1),
    )
    .unwrap();
    assert_eq!(val.lp_token_change, None);
    assert_eq!(
        val.transferred_amounts,
        (TokenAmount::new(0), TokenAmount::new(0))
    );
    assert_eq!(val.positions_details.liquidity, current_liquidity.l);
    assert_eq!(
        val.leftover_amounts,
        (TokenAmount::new(5), TokenAmount::new(7))
    );
}

#[test]
fn share_change_rejects_overdraw_with_insufficient_liquidity() {
    let current_liquidity = get_max_liquidity(
        TokenAmount::new(1000),
        TokenAmount::new(1000),
        -get_max_tick(1),
        get_max_tick(1),
        Price::from_integer(1),
        true,
    )
    .unwrap();
    let err = compute_lp_share_change(
        false,
        TokenAmount::new(217),
        current_liquidity.l.checked_add(Liquidity::new(1)).unwrap(),
        current_liquidity.l,
        TokenAmount::new(1000),
        TokenAmount::new(1000),
        1,
        0,
        Price::from_integer(1),
    )
    .unwrap_err();
    assert_eq!(err, MathError::InsufficientLiquidity);
}

#[test]
fn share_change_rejects_dust_deposits() {
    let current_liquidity = get_max_liquidity(
        TokenAmount::new(1000),
        TokenAmount::new(1000),
        -get_max_tick(1),
        get_max_tick(1),
        Price::from_integer(1),
        true,
    )
    .unwrap();
    // moves no token at all
    let err = compute_lp_share_change(
        false,
        TokenAmount::new(217),
        Liquidity::new(1),
        current_liquidity.l,
        TokenAmount::new(1000),
        TokenAmount::new(1000),
        1,
        0,
        Price::from_integer(1),
    )
    .unwrap_err();
    assert_eq!(err, MathError::AmountTooSmall);
    // moves a token but no LP token
    let err = compute_lp_share_change(
        true,
        TokenAmount::new(1),
        Liquidity::new(ONE_LP_TOKEN as u128),
        current_liquidity.l,
        TokenAmount::new(1000),
        TokenAmount::new(1000),
        1,
        0,
        Price::from_integer(1),
    )
    .unwrap_err();
    assert_eq!(err, MathError::ShareChangeTooSmall);
}

#[test]
fn mint_then_burn_returns_no_more_than_deposited() {
    let current_liquidity = get_max_liquidity(
        TokenAmount::new(1000),
        TokenAmount::new(1000),
        -get_max_tick(1),
        get_max_tick(1),
        Price::from_integer(1),
        true,
    )
    .unwrap();
    let supply = liquidity_to_lp_token_amount(
        TokenAmount::new(0),
        Liquidity::new(0),
        current_liquidity.l,
        false,
    )
    .unwrap();
    let deposit = compute_lp_share_change(
        true,
        supply,
        Liquidity::new(ONE_LP_TOKEN as u128 * 100),
        current_liquidity.l,
        TokenAmount::new(1000),
        TokenAmount::new(1000),
        1,
        0,
        Price::from_integer(1),
    )
    .unwrap();
    let minted = deposit.lp_token_change.unwrap();
    assert_eq!(minted, TokenAmount::new(99));

    let new_supply = supply.checked_add(minted).unwrap();
    let new_liquidity = deposit.positions_details.liquidity;
    let burn_delta = lp_token_amount_to_liquidity(new_supply, new_liquidity, minted).unwrap();
    assert!(burn_delta.v <= ONE_LP_TOKEN as u128 * 100);

    let withdrawal = compute_lp_share_change(
        false,
        new_supply,
        burn_delta,
        new_liquidity,
        TokenAmount::new(1000 + deposit.transferred_amounts.0 .0),
        TokenAmount::new(1000 + deposit.transferred_amounts.1 .0),
        1,
        0,
        Price::from_integer(1),
    )
    .unwrap();
    assert_eq!(
        withdrawal.transferred_amounts,
        (TokenAmount::new(185), TokenAmount::new(185))
    );
    assert!(withdrawal.transferred_amounts.0 .0 <= deposit.transferred_amounts.0 .0);
    assert!(withdrawal.transferred_amounts.1 .0 <= deposit.transferred_amounts.1 .0);
}

#[test]
fn full_exit_pays_out_leftovers_and_clears_them() {
    // a burn of the whole supply converts it all and empties the leftovers
    let (transferred, leftover, removed) = settle_withdrawal(
        TokenAmount::new(217),
        TokenAmount::new(217),
        (TokenAmount::new(1000), TokenAmount::new(1000)),
        (TokenAmount::new(5), TokenAmount::new(7)),
    )
    .unwrap();
    assert_eq!(transferred, (TokenAmount::new(1005), TokenAmount::new(1007)));
    assert_eq!(leftover, (TokenAmount::new(0), TokenAmount::new(0)));
    assert!(removed);

    // a partial burn keeps the leftovers in the pool
    let (transferred, leftover, removed) = settle_withdrawal(
        TokenAmount::new(10),
        TokenAmount::new(217),
        (TokenAmount::new(40), TokenAmount::new(41)),
        (TokenAmount::new(5), TokenAmount::new(7)),
    )
    .unwrap();
    assert_eq!(transferred, (TokenAmount::new(40), TokenAmount::new(41)));
    assert_eq!(leftover, (TokenAmount::new(5), TokenAmount::new(7)));
    assert!(!removed);
}

#[test]
fn full_exit_share_change_returns_everything() {
    let current_liquidity = get_max_liquidity(
        TokenAmount::new(1000),
        TokenAmount::new(1000),
        -get_max_tick(1),
        get_max_tick(1),
        Price::from_integer(1),
        true,
    )
    .unwrap();
    let result = compute_lp_share_change(
        false,
        TokenAmount::new(217),
        current_liquidity.l,
        current_liquidity.l,
        TokenAmount::new(1000),
        TokenAmount::new(1000),
        1,
        0,
        Price::from_integer(1),
    )
    .unwrap();
    assert_eq!(result.positions_details.liquidity, Liquidity::new(0));
    assert_eq!(result.lp_token_change, Some(TokenAmount::new(217)));
    // the payout is priced rounding down; the unpaid remainder sits in the
    // leftovers until the full exit settles them
    assert_eq!(
        result.transferred_amounts,
        (TokenAmount::new(999), TokenAmount::new(999))
    );
    assert_eq!(
        result.leftover_amounts,
        (TokenAmount::new(1), TokenAmount::new(1))
    );
    let (transferred, leftover, removed) = settle_withdrawal(
        result.lp_token_change.unwrap(),
        TokenAmount::new(217),
        result.transferred_amounts,
        result.leftover_amounts,
    )
    .unwrap();
    assert_eq!(transferred, (TokenAmount::new(1000), TokenAmount::new(1000)));
    assert_eq!(leftover, (TokenAmount::new(0), TokenAmount::new(0)));
    assert!(removed);
}

#[test]
fn share_change_rejects_unexplained_balances() {
    // accumulated balances below the modeled position cost fail hard
    let current_liquidity = get_max_liquidity(
        TokenAmount::new(1000),
        TokenAmount::new(1000),
        -get_max_tick(1),
        get_max_tick(1),
        Price::from_integer(1),
        true,
    )
    .unwrap();
    let err = compute_lp_share_change(
        true,
        TokenAmount::new(535),
        Liquidity::new(ONE_LP_TOKEN as u128),
        current_liquidity.l,
        TokenAmount::new(0),
        TokenAmount::new(0),
        1,
        0,
        Price::from_integer(1),
    )
    .unwrap_err();
    assert_eq!(err, MathError::Underflow);
}

#[test]
fn fee_growth_truncates_to_token_units() {
    let fee = FeeGrowth::new(3 * PRICE_ONE + 999_999_999_999_999_999_999_999);
    assert_eq!(TokenAmount::from_decimal(fee).unwrap(), TokenAmount::new(3));
    assert_eq!(
        TokenAmount::from_decimal(FeeGrowth::new(0)).unwrap(),
        TokenAmount::new(0)
    );
}

#[test]
fn lp_token_bootstrap_rates() {
    // seeding: liquidity per LP token is the fixed one-LP-token unit
    assert_eq!(
        liquidity_to_lp_token_amount(
            TokenAmount::new(0),
            Liquidity::new(0),
            Liquidity::new(ONE_LP_TOKEN as u128 * 7 + 1),
            false,
        )
        .unwrap(),
        TokenAmount::new(7)
    );
    assert_eq!(
        lp_token_amount_to_liquidity(TokenAmount::new(0), Liquidity::new(0), TokenAmount::new(7))
            .unwrap(),
        Liquidity::new(ONE_LP_TOKEN as u128 * 7)
    );
}

#[test]
fn liquidity_by_x_concrete() {
    let lower = calculate_sqrt_price(-10);
    let upper = calculate_sqrt_price(10);
    let current = Price::from_integer(1);
    let up = get_liquidity_by_x_sqrt_price(TokenAmount::new(500), lower, upper, current, true)
        .unwrap();
    assert_eq!(up.l, Liquidity::new(1000300019999));
    assert_eq!(up.amount, TokenAmount::new(500));
    let down = get_liquidity_by_x_sqrt_price(TokenAmount::new(500), lower, upper, current, false)
        .unwrap();
    assert_eq!(down.l, Liquidity::new(1000300019999));
    assert_eq!(down.amount, TokenAmount::new(499));
    // price sits above the range
    assert_eq!(
        get_liquidity_by_x_sqrt_price(TokenAmount::new(500), lower, upper, calculate_sqrt_price(11), true)
            .unwrap_err(),
        MathError::PriceAboveRange
    );
    // price sits below the range
    assert_eq!(
        get_liquidity_by_x_sqrt_price(TokenAmount::new(500), lower, upper, calculate_sqrt_price(-11), true)
            .unwrap_err(),
        MathError::PriceBelowRange
    );
}

#[test]
fn liquidity_by_y_concrete() {
    let lower = calculate_sqrt_price(-10);
    let upper = calculate_sqrt_price(10);
    let current = Price::from_integer(1);
    let up = get_liquidity_by_y_sqrt_price(TokenAmount::new(500), lower, upper, current, true)
        .unwrap();
    assert_eq!(up.l, Liquidity::new(1000300019984));
    assert_eq!(up.amount, TokenAmount::new(500));
    // at or above the range, all of y backs liquidity over the full range
    // width and no X is required
    let above = get_liquidity_by_y_sqrt_price(
        TokenAmount::new(500), lower, upper, calculate_sqrt_price(11), true,
    )
    .unwrap();
    assert_eq!(above.l, Liquidity::new(500024978747));
    assert_eq!(above.amount, TokenAmount::new(0));
    let at_upper = get_liquidity_by_y_sqrt_price(TokenAmount::new(500), lower, upper, upper, true)
        .unwrap();
    assert_eq!(at_upper.l, Liquidity::new(500024978747));
    assert_eq!(at_upper.amount, TokenAmount::new(0));
    assert_eq!(
        get_liquidity_by_y_sqrt_price(TokenAmount::new(500), lower, upper, calculate_sqrt_price(-11), true)
            .unwrap_err(),
        MathError::PriceBelowRange
    );
}

#[test]
fn lp_token_conversion_overflows_are_reported() {
    assert_eq!(
        liquidity_to_lp_token_amount(
            TokenAmount::new(u64::MAX),
            Liquidity::new(1),
            Liquidity::new(1_u128 << 70),
            false,
        )
        .unwrap_err(),
        MathError::Overflow
    );
}

#[test]
fn checked_decimal_arithmetic() {
    assert_eq!(
        Liquidity::new(5).checked_sub(Liquidity::new(7)).unwrap_err(),
        MathError::Underflow
    );
    assert_eq!(
        Liquidity::new(5).checked_add(Liquidity::new(7)).unwrap(),
        Liquidity::new(12)
    );
    assert_eq!(
        Liquidity::new(u128::MAX).checked_add(Liquidity::new(1)).unwrap_err(),
        MathError::Overflow
    );
    assert_eq!(
        TokenAmount::new(3).checked_sub(TokenAmount::new(3)).unwrap(),
        TokenAmount::new(0)
    );
    assert_eq!(
        Price::new(10).checked_sub(Price::new(11)).unwrap_err(),
        MathError::Underflow
    );
    assert_eq!(Liquidity::from_integer(3), Liquidity::new(3_000_000));
}
