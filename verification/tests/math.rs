use astro_core::math::{
    apply_bps, apply_bps_round_up, calculate_bps, calculate_k, calculate_price,
    calculate_slippage_bps, get_amount_in, get_amount_out, max, min, mul_div_down, mul_div_up,
    quote, safe_add, safe_div, safe_mul, safe_sub, sqrt, sub_bps, update_reserves_add,
    update_reserves_sub, update_reserves_swap, verify_k_invariant, BPS_DENOMINATOR,
    MIN_TRADE_AMOUNT, ONE_TOKEN, PRECISION, STELLAR_DECIMALS,
};
use astro_core::types::SharedError;

#[test]
fn test_safe_add() {
    assert_eq!(safe_add(100, 200).unwrap(), 300);
    assert!(safe_add(i128::MAX, 1).is_err());
}

#[test]
fn test_safe_sub() {
    assert_eq!(safe_sub(300, 100).unwrap(), 200);
    assert!(safe_sub(100, 200).is_err());
}

#[test]
fn test_safe_mul() {
    assert_eq!(safe_mul(100, 200).unwrap(), 20000);
    assert!(safe_mul(i128::MAX, 2).is_err());
}

#[test]
fn test_safe_div() {
    assert_eq!(safe_div(200, 100).unwrap(), 2);
    assert!(safe_div(100, 0).is_err());
}

#[test]
fn test_mul_div_down() {
    // Basic case
    assert_eq!(mul_div_down(100, 200, 50).unwrap(), 400);
    // Rounds down
    assert_eq!(mul_div_down(10, 3, 2).unwrap(), 15);
    assert_eq!(mul_div_down(10, 3, 4).unwrap(), 7);
    // Division by zero
    assert!(mul_div_down(100, 200, 0).is_err());
    // Zero inputs
    assert_eq!(mul_div_down(0, 200, 50).unwrap(), 0);
    assert_eq!(mul_div_down(100, 0, 50).unwrap(), 0);
    // Negative inputs rejected
    assert!(mul_div_down(-1, 200, 50).is_err());
    assert!(mul_div_down(100, -1, 50).is_err());
    assert!(mul_div_down(100, 200, -1).is_err());
}

#[test]
fn test_mul_div_up() {
    // Basic case (exact division)
    assert_eq!(mul_div_up(100, 200, 50).unwrap(), 400);
    // Rounds up
    assert_eq!(mul_div_up(10, 3, 4).unwrap(), 8);
    // Division by zero
    assert!(mul_div_up(100, 200, 0).is_err());
}

#[test]
fn test_mul_div_phantom_overflow() {
    // Large numbers whose product does not fit
    let large = 10_i128.pow(30);
    let result = mul_div_down(large, large, large).unwrap();
    assert_eq!(result, large);
}

#[test]
fn test_calculate_k() {
    assert_eq!(calculate_k(1000, 2000).unwrap(), 2_000_000);
    assert!(calculate_k(-1, 1000).is_err());
    assert!(calculate_k(1000, -1).is_err());
}

#[test]
fn test_update_reserves_add() {
    let (r0, r1) = update_reserves_add(1000, 2000, 100, 200).unwrap();
    assert_eq!(r0, 1100);
    assert_eq!(r1, 2200);
}

#[test]
fn test_update_reserves_sub() {
    let (r0, r1) = update_reserves_sub(1000, 2000, 100, 200).unwrap();
    assert_eq!(r0, 900);
    assert_eq!(r1, 1800);
    // Underflow
    assert!(update_reserves_sub(100, 200, 200, 100).is_err());
}

#[test]
fn test_update_reserves_swap() {
    // Token 0 in
    let (r0, r1) = update_reserves_swap(1000, 2000, 100, 150, true).unwrap();
    assert_eq!(r0, 1100);
    assert_eq!(r1, 1850);

    // Token 1 in
    let (r0, r1) = update_reserves_swap(1000, 2000, 100, 150, false).unwrap();
    assert_eq!(r0, 1850);
    assert_eq!(r1, 1100);

    // Underflow protection
    assert!(update_reserves_swap(1000, 100, 50, 200, true).is_err());
}

#[test]
fn test_verify_k_invariant() {
    // k increases
    assert!(verify_k_invariant(1100, 1900, 1000, 2000).unwrap());
    // k equal
    assert!(verify_k_invariant(1000, 2000, 1000, 2000).unwrap());
    // k decreases
    assert!(!verify_k_invariant(900, 1800, 1000, 2000).unwrap());
}

#[test]
fn test_apply_bps() {
    // 5% of 1000 = 50
    assert_eq!(apply_bps(1000, 500).unwrap(), 50);
    // 0.3% of 10000 = 30
    assert_eq!(apply_bps(10000, 30).unwrap(), 30);
}

#[test]
fn test_apply_bps_round_up() {
    // 0.05% of 1,000,000 = 500, exactly
    assert_eq!(apply_bps_round_up(1_000_000, 5).unwrap(), 500);
    // 0.05% of 1000 = 0.5, rounded up to 1
    assert_eq!(apply_bps_round_up(1000, 5).unwrap(), 1);
    // 0.25% of 1000 = 2.5, rounded up to 3
    assert_eq!(apply_bps_round_up(1000, 25).unwrap(), 3);
    // 0% of anything = 0
    assert_eq!(apply_bps_round_up(1000, 0).unwrap(), 0);
    // 1% of 1000 = 10, exactly
    assert_eq!(apply_bps_round_up(1000, 100).unwrap(), 10);
}

#[test]
fn test_apply_bps_round_up_vs_down() {
    let amount = 1000i128;
    let protocol_fee_bps = 5u32;

    let fee_down = apply_bps(amount, protocol_fee_bps).unwrap();
    let fee_up = apply_bps_round_up(amount, protocol_fee_bps).unwrap();

    assert_eq!(fee_down, 0);
    assert_eq!(fee_up, 1);
    assert!(fee_up >= fee_down, "Round up should always be >= round down");
}

#[test]
fn test_min_trade_amount() {
    assert_eq!(MIN_TRADE_AMOUNT, 1_000_000);
    let protocol_fee = apply_bps_round_up(MIN_TRADE_AMOUNT, 5).unwrap();
    assert!(protocol_fee > 0, "Protocol fee should be > 0 at min trade amount");
    let lp_fee = apply_bps_round_up(MIN_TRADE_AMOUNT, 25).unwrap();
    assert!(lp_fee > 0, "LP fee should be > 0 at min trade amount");
}

#[test]
fn test_sqrt() {
    assert_eq!(sqrt(0), 0);
    assert_eq!(sqrt(1), 1);
    assert_eq!(sqrt(4), 2);
    assert_eq!(sqrt(9), 3);
    assert_eq!(sqrt(100), 10);
    assert_eq!(sqrt(10000), 100);
    // Negative values return 0
    assert_eq!(sqrt(-1), 0);
    assert_eq!(sqrt(-100), 0);
}

#[test]
fn test_quote() {
    // 100 A with 1000/2000 reserves = 200 B
    assert_eq!(quote(100, 1000, 2000).unwrap(), 200);
    // Invalid inputs
    assert!(quote(0, 1000, 2000).is_err());
    assert!(quote(100, 0, 2000).is_err());
    assert!(quote(100, 1000, 0).is_err());
}

#[test]
fn test_get_amount_out() {
    // 100 in, 1000/1000 reserves, 0.3% fee
    let out = get_amount_out(100, 1000, 1000, 30).unwrap();
    assert!(out > 0 && out < 100);
    // Invalid inputs
    assert!(get_amount_out(0, 1000, 1000, 30).is_err());
    assert!(get_amount_out(100, 0, 1000, 30).is_err());
    assert!(get_amount_out(100, 1000, 0, 30).is_err());
}

#[test]
fn test_get_amount_in() {
    // Want 90 out from 1000/1000 reserves with 0.3% fee
    let amount_in = get_amount_in(90, 1000, 1000, 30).unwrap();
    assert!(amount_in > 90);
    // Invalid inputs
    assert!(get_amount_in(0, 1000, 1000, 30).is_err());
    assert!(get_amount_in(90, 0, 1000, 30).is_err());
    assert!(get_amount_in(90, 1000, 0, 30).is_err());
    // Insufficient liquidity
    assert!(get_amount_in(1000, 1000, 1000, 30).is_err());
    assert!(get_amount_in(1001, 1000, 1000, 30).is_err());
}

#[test]
fn test_min_max() {
    assert_eq!(min(100, 200), 100);
    assert_eq!(min(200, 100), 100);
    assert_eq!(max(100, 200), 200);
    assert_eq!(max(200, 100), 200);
}

// ---------------------------------------------------------------------------
// Checked operations: every error and the edges of the range
// ---------------------------------------------------------------------------

#[test]
fn constants_have_their_values() {
    assert_eq!(PRECISION, 1_000_000_000_000_000_000);
    assert_eq!(BPS_DENOMINATOR, 10_000);
    assert_eq!(STELLAR_DECIMALS, 7);
    assert_eq!(ONE_TOKEN, 10_000_000);
}

#[test]
fn safe_add_reports_overflow_at_both_ends() {
    assert_eq!(safe_add(i128::MAX, 1), Err(SharedError::Overflow));
    assert_eq!(safe_add(i128::MIN, -1), Err(SharedError::Overflow));
    assert_eq!(safe_add(i128::MAX, 0), Ok(i128::MAX));
    assert_eq!(safe_add(-5, 3), Ok(-2));
}

#[test]
fn safe_sub_rejects_negative_results() {
    assert_eq!(safe_sub(100, 200), Err(SharedError::Underflow));
    assert_eq!(safe_sub(i128::MIN, 1), Err(SharedError::Underflow));
    assert_eq!(safe_sub(0, i128::MIN), Err(SharedError::Underflow));
    assert_eq!(safe_sub(-1, -1), Ok(0));
    assert_eq!(safe_sub(5, 5), Ok(0));
    assert_eq!(safe_sub(-3, -5), Ok(2));
}

#[test]
fn safe_mul_reports_overflow() {
    assert_eq!(safe_mul(i128::MAX, 2), Err(SharedError::Overflow));
    assert_eq!(safe_mul(i128::MIN, -1), Err(SharedError::Overflow));
    assert_eq!(safe_mul(-4, 5), Ok(-20));
    assert_eq!(safe_mul(0, i128::MIN), Ok(0));
}

#[test]
fn safe_div_rounds_toward_zero() {
    assert_eq!(safe_div(100, 0), Err(SharedError::DivisionByZero));
    assert_eq!(safe_div(i128::MIN, -1), Err(SharedError::Overflow));
    assert_eq!(safe_div(7, 2), Ok(3));
    assert_eq!(safe_div(-7, 2), Ok(-3));
    assert_eq!(safe_div(7, -2), Ok(-3));
    assert_eq!(safe_div(-7, -2), Ok(3));
    assert_eq!(safe_div(0, -2), Ok(0));
}

// ---------------------------------------------------------------------------
// Multiply-then-divide
// ---------------------------------------------------------------------------

#[test]
fn mul_div_down_names_each_error() {
    assert_eq!(mul_div_down(100, 200, 0), Err(SharedError::DivisionByZero));
    assert_eq!(mul_div_down(-1, 200, 0), Err(SharedError::DivisionByZero));
    assert_eq!(mul_div_down(-1, 200, 50), Err(SharedError::InvalidAmount));
    assert_eq!(mul_div_down(100, -1, 50), Err(SharedError::InvalidAmount));
    assert_eq!(mul_div_down(100, 200, -1), Err(SharedError::InvalidAmount));
    assert_eq!(mul_div_down(i128::MAX, i128::MAX, 1), Err(SharedError::Overflow));
    assert_eq!(mul_div_down(i128::MAX, 2, 1), Err(SharedError::Overflow));
}

#[test]
fn mul_div_rejects_a_negative_operand_beside_a_zero() {
    assert_eq!(mul_div_down(0, -1, 5), Err(SharedError::InvalidAmount));
    assert_eq!(mul_div_down(-1, 0, 5), Err(SharedError::InvalidAmount));
    assert_eq!(mul_div_down(0, 5, -5), Err(SharedError::InvalidAmount));
    assert_eq!(mul_div_up(0, -1, 5), Err(SharedError::InvalidAmount));
    assert_eq!(mul_div_up(-1, 0, 5), Err(SharedError::InvalidAmount));
}

#[test]
fn mul_div_down_is_exact_past_the_native_width() {
    // a * b = 2^127 * 3 does not fit, the quotient by 3 is a itself
    assert_eq!(mul_div_down(i128::MAX, 3, 3), Ok(i128::MAX));
    // (2^100 + 1) * 2^100 / 2^100
    let big: i128 = 1 << 100;
    assert_eq!(mul_div_down(big + 1, big, big), Ok(big + 1));
    // floor((2^100 + 1) * (2^100 - 1) / 2^100) = floor((2^200 - 1) / 2^100) = 2^100 - 1
    assert_eq!(mul_div_down(big + 1, big - 1, big), Ok(big - 1));
    assert_eq!(mul_div_up(big + 1, big - 1, big), Ok(big));
    assert_eq!(mul_div_down(i128::MAX, i128::MAX, i128::MAX), Ok(i128::MAX));
    assert_eq!(mul_div_up(i128::MAX, i128::MAX, i128::MAX), Ok(i128::MAX));
}

#[test]
fn mul_div_is_exact_where_a_partial_product_is_wide() {
    // a = 2^26 * c + 2^99 with c = 2^100, b = 2^90: the partial product
    // 2^99 * 2^90 is 189 bits wide, the quotient is 2^116 + 2^89 exactly
    let c: i128 = 1 << 100;
    let a: i128 = (1 << 126) + (1 << 99);
    let b: i128 = 1 << 90;
    assert_eq!(mul_div_down(a, b, c), Ok((1 << 116) + (1 << 89)));
    assert_eq!(mul_div_up(a, b, c), Ok((1 << 116) + (1 << 89)));

    let ten_30: i128 = 1_000_000_000_000_000_000_000_000_000_000;
    let fifteen_29: i128 = 1_500_000_000_000_000_000_000_000_000_000;
    assert_eq!(mul_div_down(fifteen_29, ten_30, ten_30), Ok(fifteen_29));
    assert_eq!(mul_div_up(fifteen_29, ten_30, ten_30), Ok(fifteen_29));
}

#[test]
fn mul_div_is_the_floor_for_wide_products() {
    // (c - 1) * c / c = c - 1, and (c - 1)^2 / c = c - 2 with remainder 1
    let divisors: [i128; 4] = [
        1_000_000_000_000_000_000_000_000_000_007,
        (1 << 100) + 1,
        i128::MAX,
        i128::MAX - 1,
    ];
    for c in divisors {
        assert_eq!(mul_div_down(c - 1, c, c), Ok(c - 1));
        assert_eq!(mul_div_up(c - 1, c, c), Ok(c - 1));
        assert_eq!(mul_div_down(c - 1, c - 1, c), Ok(c - 2));
        assert_eq!(mul_div_up(c - 1, c - 1, c), Ok(c - 1));
    }
    // a = 3 * c + (c - 1), b = 5: 3 * 5 + floor((c - 1) * 5 / c) = 15 + 4
    let c: i128 = i128::MAX / 5;
    assert_eq!(mul_div_down(3 * c + (c - 1), 5, c), Ok(19));
    assert_eq!(mul_div_up(3 * c + (c - 1), 5, c), Ok(20));
    // the floor fits, the quotient one step further does not
    assert_eq!(mul_div_down(i128::MAX, i128::MAX - 1, i128::MAX - 1), Ok(i128::MAX));
    assert_eq!(mul_div_down(i128::MAX, i128::MAX, i128::MAX - 1), Err(SharedError::Overflow));
    // 2^126 * 3 / 2 = 2^125 * 3 fits; 2^126 * 5 / 2 does not
    let half: i128 = 1 << 126;
    assert_eq!(mul_div_down(half, 3, 2), Ok((1 << 125) * 3));
    assert_eq!(mul_div_down(half, 5, 2), Err(SharedError::Overflow));
    // a price scaled by 10^18 and divided by an amount near the top
    let precision: i128 = 1_000_000_000_000_000_000;
    let amount: i128 = 100_000_000_000_000_000_000_000_000_000_000_000_000;
    assert_eq!(mul_div_down(amount, precision, amount - 1), Ok(precision));
    assert_eq!(mul_div_up(amount, precision, amount - 1), Ok(precision + 1));
}

#[test]
fn mul_div_up_adds_one_only_for_a_remainder() {
    // 2 * 3 / 2 is exactly 3
    assert_eq!(mul_div_up(2, 3, 2), Ok(3));
    assert_eq!(mul_div_down(2, 3, 2), Ok(3));
    assert_eq!(mul_div_up(7, 1, 7), Ok(1));
    assert_eq!(mul_div_up(1, 1, 7), Ok(1));
    assert_eq!(mul_div_down(1, 1, 7), Ok(0));
    assert_eq!(mul_div_up(0, 5, 7), Ok(0));
    assert_eq!(mul_div_up(100, 200, 0), Err(SharedError::DivisionByZero));
    // the floor fits, one more does not
    assert_eq!(mul_div_down(i128::MAX, 3, 2), Err(SharedError::Overflow));
    assert_eq!(mul_div_down(i128::MAX, 1, 1), Ok(i128::MAX));
    assert_eq!(mul_div_up(i128::MAX, 1, 1), Ok(i128::MAX));
    let odd = i128::MAX; // odd, so odd * 2 / 2 is exact and (odd * 1) / 2 is not
    assert_eq!(mul_div_down(odd, 1, 2), Ok(odd / 2));
    assert_eq!(mul_div_up(odd, 1, 2), Ok(odd / 2 + 1));
}

#[test]
fn mul_div_floor_brackets_the_quotient() {
    let cases: [(i128, i128, i128); 6] = [
        (10, 3, 4),
        (1, 1, 3),
        (999_999, 777, 1000),
        (1 << 100, 12345, 67891),
        (123_456_789_012_345_678_901_234_567_890, 987_654_321, 1_000_000_007),
        (5, 0, 9),
    ];
    for (a, b, c) in cases {
        let f = mul_div_down(a, b, c).unwrap();
        let u = mul_div_up(a, b, c).unwrap();
        // f <= a*b/c < f + 1, checked through the remainder of the decomposition
        let r = (a % c) * b % c;
        assert_eq!(f, (a / c) * b + (a % c) * b / c);
        assert!(f <= u);
        assert_eq!(u, if r == 0 { f } else { f + 1 });
    }
}

// ---------------------------------------------------------------------------
// Basis points
// ---------------------------------------------------------------------------

#[test]
fn apply_bps_rejects_negative_amounts() {
    assert_eq!(apply_bps(-1, 500), Err(SharedError::InvalidAmount));
    assert_eq!(apply_bps_round_up(-1, 500), Err(SharedError::InvalidAmount));
    assert_eq!(apply_bps_round_up(-1, 0), Err(SharedError::InvalidAmount));
    assert_eq!(sub_bps(-1, 500), Err(SharedError::InvalidAmount));
}

#[test]
fn apply_bps_survives_a_product_past_the_native_width() {
    // amount * bps does not fit, the share does
    assert_eq!(apply_bps(i128::MAX, 10_000), Ok(i128::MAX));
    assert_eq!(apply_bps(i128::MAX, 5_000), Ok(i128::MAX / 2));
    assert_eq!(apply_bps_round_up(i128::MAX, 5_000), Ok(i128::MAX / 2 + 1));
    assert_eq!(apply_bps(i128::MAX, 20_000), Err(SharedError::Overflow));
    assert_eq!(apply_bps_round_up(i128::MAX, 20_000), Err(SharedError::Overflow));
}

#[test]
fn round_up_fee_is_never_below_round_down_fee() {
    let amounts: [i128; 6] = [0, 1, 1999, 10_000, 123_456_789, i128::MAX / 3];
    let rates: [u32; 5] = [0, 1, 5, 9_999, 10_000];
    for amount in amounts {
        for bps in rates {
            let down = apply_bps(amount, bps).unwrap();
            let up = apply_bps_round_up(amount, bps).unwrap();
            assert!(up >= down);
            let exact = (amount % 10_000) * (bps as i128) % 10_000 == 0;
            assert_eq!(up > down, !exact);
            if amount > 0 && bps > 0 {
                assert!(up > 0);
            }
        }
    }
}

#[test]
fn calculate_bps_gives_the_share() {
    assert_eq!(calculate_bps(50, 1000), Ok(500));
    assert_eq!(calculate_bps(1, 3), Ok(3333));
    assert_eq!(calculate_bps(50, 0), Err(SharedError::DivisionByZero));
    assert_eq!(calculate_bps(i128::MAX, 1), Err(SharedError::Overflow));
    // a quotient past 32 bits keeps its low 32 bits
    assert_eq!(calculate_bps(1 << 40, 1), Ok((((1i128 << 40) * 10_000) & 0xffff_ffff) as u32));
    // a negative share is rounded toward zero, then reduced
    assert_eq!(calculate_bps(-1, 3), Ok((-3333i128) as u32));
}

#[test]
fn sub_bps_takes_the_share_off() {
    assert_eq!(sub_bps(1000, 500), Ok(950));
    assert_eq!(sub_bps(1000, 0), Ok(1000));
    assert_eq!(sub_bps(1000, 10_000), Ok(0));
    assert_eq!(sub_bps(1000, 10_001), Ok(0));
    assert_eq!(sub_bps(1000, 20_000), Err(SharedError::Underflow));
    assert_eq!(sub_bps(i128::MAX, 20_000), Err(SharedError::Overflow));
}

// ---------------------------------------------------------------------------
// Prices and quotes
// ---------------------------------------------------------------------------

#[test]
fn calculate_price_scales_by_precision() {
    assert_eq!(calculate_price(1000, 2000), Ok(2 * PRECISION));
    assert_eq!(calculate_price(3, 1), Ok(PRECISION / 3));
    assert_eq!(calculate_price(0, 2000), Err(SharedError::DivisionByZero));
    assert_eq!(calculate_price(1, i128::MAX), Err(SharedError::Overflow));
    assert_eq!(calculate_price(-2, 1), Ok(-(PRECISION / 2)));
}

#[test]
fn calculate_slippage_bps_measures_the_rise() {
    assert_eq!(calculate_slippage_bps(0, 500), Ok(0));
    assert_eq!(calculate_slippage_bps(1000, 1050), Ok(500));
    assert_eq!(calculate_slippage_bps(1000, 1000), Ok(0));
    assert_eq!(calculate_slippage_bps(1000, 999), Err(SharedError::Underflow));
    assert_eq!(calculate_slippage_bps(1, i128::MAX), Err(SharedError::Overflow));
    assert_eq!(calculate_slippage_bps(-10, 10), Ok(-20_000));
}

#[test]
fn get_amount_out_matches_the_formula() {
    // with_fee = 100 * 9970 = 997000; 997000 * 1000 / (1000 * 10000 + 997000) = 90.66..
    assert_eq!(get_amount_out(100, 1000, 1000, 30), Ok(90));
    assert_eq!(get_amount_out(100, 1000, 1000, 0), Ok(90));
    assert_eq!(get_amount_out(0, 1000, 1000, 30), Err(SharedError::InvalidAmount));
    assert_eq!(get_amount_out(100, 0, 1000, 30), Err(SharedError::InsufficientBalance));
    assert_eq!(get_amount_out(100, 1000, 0, 30), Err(SharedError::InsufficientBalance));
    assert_eq!(get_amount_out(i128::MAX, 1000, 1000, 30), Err(SharedError::Overflow));
    assert_eq!(get_amount_out(100, i128::MAX, 1000, 30), Err(SharedError::Overflow));
    // a fee of the whole leaves nothing
    assert_eq!(get_amount_out(100, 1000, 1000, 10_000), Ok(0));
    // a fee above the whole makes the input negative
    assert_eq!(get_amount_out(100, 1000, 1000, 10_001), Err(SharedError::InvalidAmount));
}

#[test]
fn get_amount_in_matches_the_formula() {
    // 1000 * 90 * 10000 / (910 * 9970) = 99.19.., rounded up to 100, plus one
    assert_eq!(get_amount_in(90, 1000, 1000, 30), Ok(101));
    assert_eq!(get_amount_in(0, 1000, 1000, 30), Err(SharedError::InvalidAmount));
    assert_eq!(get_amount_in(90, 0, 1000, 30), Err(SharedError::InsufficientBalance));
    assert_eq!(get_amount_in(1000, 1000, 1000, 30), Err(SharedError::InsufficientBalance));
    assert_eq!(get_amount_in(90, 1000, 1000, 10_000), Err(SharedError::DivisionByZero));
    assert_eq!(get_amount_in(90, 1000, 1000, 10_001), Err(SharedError::InvalidAmount));
    assert_eq!(get_amount_in(2, i128::MAX, 1000, 30), Err(SharedError::Overflow));
}

#[test]
fn quote_names_each_error() {
    assert_eq!(quote(0, 1000, 2000), Err(SharedError::InvalidAmount));
    assert_eq!(quote(100, 0, 2000), Err(SharedError::InsufficientBalance));
    assert_eq!(quote(100, 1000, 0), Err(SharedError::InsufficientBalance));
    assert_eq!(quote(i128::MAX, 1, 2), Err(SharedError::Overflow));
    assert_eq!(quote(7, 2, 1), Ok(3));
}

#[test]
fn reserves_name_each_error() {
    assert_eq!(update_reserves_add(i128::MAX, 0, 1, 0), Err(SharedError::Overflow));
    assert_eq!(update_reserves_add(0, i128::MAX, 0, 1), Err(SharedError::Overflow));
    assert_eq!(update_reserves_sub(100, 200, 200, 100), Err(SharedError::Underflow));
    assert_eq!(update_reserves_sub(200, 100, 100, 200), Err(SharedError::Underflow));
    assert_eq!(update_reserves_swap(i128::MAX, 100, 1, 1, true), Err(SharedError::Overflow));
    assert_eq!(update_reserves_swap(1000, 100, 50, 200, true), Err(SharedError::Underflow));
    assert_eq!(calculate_k(-1, 1000), Err(SharedError::InvalidAmount));
    assert_eq!(calculate_k(i128::MAX, 2), Err(SharedError::Overflow));
    assert_eq!(verify_k_invariant(-1, 1, 1, 1), Err(SharedError::InvalidAmount));
    assert_eq!(verify_k_invariant(1, 1, -1, 1), Err(SharedError::InvalidAmount));
    assert_eq!(verify_k_invariant(i128::MAX, 2, 1, 1), Err(SharedError::Overflow));
    assert_eq!(verify_k_invariant(1, 1, i128::MAX, 2), Err(SharedError::Overflow));
}

// ---------------------------------------------------------------------------
// Square root
// ---------------------------------------------------------------------------

#[test]
fn sqrt_is_the_floor_of_the_root() {
    let values: [i128; 12] = [
        0, 1, 2, 3, 4, 8, 15, 16, 17, 99, 1_000_000_007, 1 << 100,
    ];
    for n in values {
        let r = sqrt(n);
        assert!(r >= 0);
        assert!(r * r <= n);
        assert!((r + 1) * (r + 1) > n);
    }
    assert_eq!(sqrt(2), 1);
    assert_eq!(sqrt(3), 1);
    assert_eq!(sqrt(8), 2);
    assert_eq!(sqrt(99), 9);
    assert_eq!(sqrt(1 << 100), 1 << 50);
}

#[test]
fn sqrt_of_the_largest_value_stays_in_range() {
    let r = sqrt(i128::MAX);
    assert_eq!(r, 13_043_817_825_332_782_212);
    assert!(r * r <= i128::MAX);
    assert!((r + 1).checked_mul(r + 1).is_none());
    assert_eq!(sqrt(i128::MIN), 0);
}
