use polymarket_executor::fees::{average_price_raw, net_shares_of_fill};

#[test]
fn fee_on_a_hundred_shares_at_one_half() {
    // 100 * 0.25 * (0.5 * 0.5)^2 = 1.5625 shares of fee, 98.4375 net
    assert_eq!(net_shares_of_fill(100_000_000, 50_000_000), 98_437_500);
}

#[test]
fn fee_is_taken_at_the_exact_price_of_the_fill() {
    // 3 shares for 1 of currency: the price is one third, not 0.333333
    assert_eq!(net_shares_of_fill(3_000_000, 1_000_000), 2_962_962);
    assert_eq!(net_shares_of_fill(3_000_000_000, 1_000_000_000), 2_962_962_962);
    // 27.03 shares for 10 of currency
    assert_eq!(net_shares_of_fill(27_030_000, 10_000_000), 26_662_860);
    // one share for a third of a unit, cut and raised
    assert_eq!(net_shares_of_fill(1_000_000, 333_333), 987_654);
    assert_eq!(net_shares_of_fill(1_000_000, 333_334), 987_654);
}

#[test]
fn no_fee_at_the_ends_of_the_price_range() {
    assert_eq!(net_shares_of_fill(100_000_000, 0), 100_000_000);
    assert_eq!(net_shares_of_fill(100_000_000, 100_000_000), 100_000_000);
    assert_eq!(net_shares_of_fill(i64::MAX, 0), i64::MAX);
    assert_eq!(net_shares_of_fill(i64::MAX, i64::MAX), i64::MAX);
    assert_eq!(net_shares_of_fill(1, 0), 1);
    assert_eq!(net_shares_of_fill(1, 1), 1);
}

#[test]
fn nothing_filled_nothing_taken() {
    assert_eq!(net_shares_of_fill(0, 0), 0);
    assert_eq!(net_shares_of_fill(0, 50_000_000), 0);
    assert_eq!(net_shares_of_fill(0, i64::MIN), 0);
    assert_eq!(net_shares_of_fill(-5, 3), -5);
    assert_eq!(net_shares_of_fill(i64::MIN, i64::MAX), i64::MIN);
}

#[test]
fn fee_is_rounded_up() {
    // two raw units at one half: a fee of 1/32 of a raw unit takes one
    assert_eq!(net_shares_of_fill(2, 1), 1);
    // 64 raw units at one half: a fee of exactly one raw unit
    assert_eq!(net_shares_of_fill(64, 32), 63);
    assert_eq!(net_shares_of_fill(65, 32), 63);
    assert_eq!(net_shares_of_fill(5, 2), 4);
    // the smallest fee on the largest fill
    assert_eq!(net_shares_of_fill(i64::MAX, 1), i64::MAX - 1);
}

#[test]
fn fee_is_symmetric_about_one_half() {
    assert_eq!(net_shares_of_fill(123_456_789, 45_678_901), 121_779_767);
    assert_eq!(net_shares_of_fill(123_456_789, 123_456_789 - 45_678_901), 121_779_767);
}

#[test]
fn fee_on_the_largest_fill() {
    assert_eq!(net_shares_of_fill(i64::MAX, i64::MAX / 2), 9_079_256_848_778_919_935);
}

#[test]
fn fee_beyond_the_price_range_follows_the_formula() {
    // at a price of 2 the weight is (2 * -1)^2 / 4 = 1: the fee takes all
    assert_eq!(net_shares_of_fill(100, 200), 0);
    // at a price of 3 it is (3 * -2)^2 / 4 = 9
    assert_eq!(net_shares_of_fill(100, 300), -800);
    // at a price of -1 it is (-1 * 2)^2 / 4 = 1
    assert_eq!(net_shares_of_fill(100, -100), 0);
    // at a price of 10 it is (10 * -9)^2 / 4 = 2025
    assert_eq!(net_shares_of_fill(1, 10), -2024);
    assert_eq!(net_shares_of_fill(1_000_000, 77_000_000), -8_561_475_000_000);
    assert_eq!(net_shares_of_fill(1_000_000, 2_000_000_000), -3_996_000_999_999_000_000);
    assert_eq!(net_shares_of_fill(1_000_000_000_000, 3_000_000_000_001), -8_000_000_000_016);
}

#[test]
fn net_shares_saturate() {
    assert_eq!(net_shares_of_fill(1, 77_936), -9_223_193_340_756_366_399);
    assert_eq!(net_shares_of_fill(1, 77_937), i64::MIN);
    assert_eq!(net_shares_of_fill(1, i64::MAX), i64::MIN);
    assert_eq!(net_shares_of_fill(1, i64::MIN), i64::MIN);
    assert_eq!(net_shares_of_fill(1, 4_294_967_296), i64::MIN);
    assert_eq!(net_shares_of_fill(7, 3_000_000_000), i64::MIN);
    assert_eq!(net_shares_of_fill(1000, 1_099_511_627_776), i64::MIN);
    // the largest fill against the largest debt stays just within range
    assert_eq!(net_shares_of_fill(i64::MAX, i64::MIN), -4);
}

#[test]
fn average_price_is_currency_over_shares() {
    assert_eq!(average_price_raw(50_000_000, 100_000_000), 500_000);
    assert_eq!(average_price_raw(10_000_000, 27_030_000), 369_959);
    assert_eq!(average_price_raw(1, 3), 333_333);
    assert_eq!(average_price_raw(2, 3), 666_666);
    assert_eq!(average_price_raw(0, 5), 0);
}

#[test]
fn average_price_without_shares_is_zero() {
    assert_eq!(average_price_raw(50_000_000, 0), 0);
    assert_eq!(average_price_raw(50_000_000, -1), 0);
    assert_eq!(average_price_raw(i64::MIN, i64::MIN), 0);
}

#[test]
fn average_price_is_cut_toward_zero_and_saturates() {
    assert_eq!(average_price_raw(-1, 3), -333_333);
    assert_eq!(average_price_raw(-2, 3), -666_666);
    assert_eq!(average_price_raw(i64::MAX, 1), i64::MAX);
    assert_eq!(average_price_raw(i64::MIN, 1), i64::MIN);
    assert_eq!(average_price_raw(i64::MAX, i64::MAX), 1_000_000);
    assert_eq!(average_price_raw(i64::MIN, i64::MAX), -1_000_000);
}
