use clmm_shares::decimals::{Liquidity, Price, TokenAmount};
use clmm_shares::math::{
    get_max_liquidity, get_max_tick, liquidity_to_lp_token_amount, lp_token_amount_to_liquidity,
};
use clmm_shares::share::compute_lp_share_change;
use clmm_shares::ONE_LP_TOKEN;

#[test]
fn test_liquidity_to_lp_token_amount() {
    let result = liquidity_to_lp_token_amount(
        TokenAmount::new(100),
        Liquidity::new(1000),
        Liquidity::new(10),
        false,
    )
    .unwrap();
    assert_eq!(result, TokenAmount::new(1));

    let result = lp_token_amount_to_liquidity(
        TokenAmount::new(101),
        Liquidity::new(1010),
        TokenAmount::new(1),
    )
    .unwrap();
    assert_eq!(result, Liquidity::new(10));
}

#[test]
fn test_liquidity_to_lp_token_amount_limits() {
    let liquidity_delta = Liquidity::new(2_u128.pow(83) + 1);
    let current_liquidity = Liquidity::new(2_u128.pow(84) + 1);
    let init_supply = TokenAmount::new(2_u64.pow(63) + 1);

    let lp_tokens_minted =
        liquidity_to_lp_token_amount(init_supply, current_liquidity, liquidity_delta, false)
            .unwrap();
    assert_eq!(lp_tokens_minted, TokenAmount::new(4611686018427387904));

    let new_liquidity_delta = lp_token_amount_to_liquidity(
        init_supply.checked_add(lp_tokens_minted).unwrap(),
        current_liquidity.checked_add(liquidity_delta).unwrap(),
        lp_tokens_minted,
    )
    .unwrap();

    assert!(new_liquidity_delta.lt(&liquidity_delta));
    assert_eq!(new_liquidity_delta, Liquidity::new(9671406556917033396950358));

    let new_lp_tokens_minted = liquidity_to_lp_token_amount(
        init_supply.checked_add(lp_tokens_minted).unwrap(),
        current_liquidity.checked_add(liquidity_delta).unwrap(),
        new_liquidity_delta,
        true,
    )
    .unwrap();

    assert_eq!(new_lp_tokens_minted, lp_tokens_minted);
}

#[test]
fn test_compute_lp_share_change() {
    {
        let delta_liquidity = Liquidity::new(ONE_LP_TOKEN as u128 * 1);
        let current_liquidity = get_max_liquidity(
            TokenAmount::new(0),
            TokenAmount::new(0),
            -get_max_tick(1),
            get_max_tick(1),
            Price::from_integer(1),
            true,
        )
        .unwrap();

        let val = compute_lp_share_change(
            true,
            TokenAmount(0),
            delta_liquidity,
            current_liquidity.l,
            TokenAmount::new(0),
            TokenAmount::new(0),
            1,
            0,
            Price::from_integer(1),
        )
        .unwrap();
        assert_eq!(val.positions_details.liquidity.v, ONE_LP_TOKEN as u128);
        assert_eq!(
            val.positions_details.liquidity,
            current_liquidity.l.checked_add(delta_liquidity).unwrap()
        );

        assert_eq!(val.lp_token_change.unwrap(), TokenAmount::new(1));

        assert_eq!(
            val.transferred_amounts,
            (TokenAmount::new(2), TokenAmount::new(2))
        );
        assert_eq!(
            val.leftover_amounts,
            (TokenAmount::new(0), TokenAmount::new(0))
        );
    }
    {
        let delta_liquidity = Liquidity::new(ONE_LP_TOKEN as u128 * 100);
        let current_liquidity = get_max_liquidity(
            TokenAmount::new(1000),
            TokenAmount::new(1000),
            -get_max_tick(1),
            get_max_tick(1),
            Price::from_integer(1),
            true,
        )
        .unwrap();

        let token_supply = liquidity_to_lp_token_amount(
            TokenAmount::new(0),
            Liquidity::new(0),
            current_liquidity.l,
            false,
        )
        .unwrap();

        let val = compute_lp_share_change(
            true,
            token_supply,
            delta_liquidity,
            current_liquidity.l,
            TokenAmount::new(1000),
            TokenAmount::new(1000),
            1,
            0,
            Price::from_integer(1),
        )
        .unwrap();
        assert_eq!(val.positions_details.liquidity.v, 1331825849);
        assert_eq!(
            val.positions_details.liquidity,
            current_liquidity.l.checked_add(delta_liquidity).unwrap()
        );

        assert_eq!(val.lp_token_change.unwrap(), TokenAmount::new(99));
        assert_eq!(
            val.transferred_amounts,
            (TokenAmount::new(187), TokenAmount::new(187))
        );
        assert_eq!(
            val.leftover_amounts,
            (TokenAmount::new(0), TokenAmount::new(0))
        );
    }
    {
        // withdraw below 0
        let current_liquidity = get_max_liquidity(
            TokenAmount::new(0),
            TokenAmount::new(0),
            -get_max_tick(1),
            get_max_tick(1),
            Price::from_integer(1),
            true,
        )
        .unwrap();
        compute_lp_share_change(
            false,
            TokenAmount::new(1),
            Liquidity::new(1),
            current_liquidity.l,
            TokenAmount::new(0),
            TokenAmount::new(0),
            1,
            0,
            Price::from_integer(1),
        )
        .unwrap_err();
    }
    {
        let current_liquidity = get_max_liquidity(
            TokenAmount::new(1),
            TokenAmount::new(1),
            -get_max_tick(1),
            get_max_tick(1),
            Price::from_integer(1),
            true,
        )
        .unwrap();
        // withdraw below liquidity amount
        compute_lp_share_change(
            false,
            TokenAmount::new(1),
            current_liquidity.l.checked_sub(Liquidity::new(1)).unwrap(),
            current_liquidity.l,
            TokenAmount::new(1),
            TokenAmount::new(1),
            1,
            0,
            Price::from_integer(1),
        )
        .unwrap_err();
    }
    {
        let current_liquidity = get_max_liquidity(
            TokenAmount::new(1000),
            TokenAmount::new(1000),
            -get_max_tick(1),
            get_max_tick(1),
            Price::from_integer(1),
            true,
        )
        .unwrap();
        // withdraw at the exact amount
        let result = compute_lp_share_change(
            false,
            TokenAmount::new(217),
            current_liquidity.l,
            current_liquidity.l,
            TokenAmount::new(1000),
            TokenAmount::new(1000),
            1,
            0,
            Price::from_integer(1),
        )
        .unwrap();

        assert_eq!(result.lp_token_change.unwrap().0, 217)
    }
}

#[test]
fn get_max_liquidity_full_range_limit_tick_spacing_100() {
    let max_liquidity = get_max_liquidity(
        TokenAmount::new(u64::MAX - 2_u64.pow(24)),
        TokenAmount::new(u64::MAX - 2_u64.pow(24)),
        -get_max_tick(100),
        get_max_tick(100),
        Price::from_integer(1),
        true,
    )
    .unwrap();
    assert_eq!(max_liquidity.l.v, 18447025555601329581907199); // < 2^84
}

#[test]
fn get_max_liquidity_full_range_limit_tick_spacing_1() {
    let max_liquidity = get_max_liquidity(
        TokenAmount::new(u64::MAX - 2_u64.pow(24)),
        TokenAmount::new(u64::MAX - 2_u64.pow(24)),
        -get_max_tick(1),
        get_max_tick(1),
        Price::from_integer(1),
        true,
    )
    .unwrap();
    assert_eq!(max_liquidity.l.v, 20699287982049910463681759); // < 2^85
}
