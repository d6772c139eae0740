use polymarket_executor::executor::BALANCE_UNAVAILABLE;
use polymarket_executor::orders::{
    limit_buy_order, limit_sell_order, market_buy_order, market_sell_order, market_sell_record,
};
use polymarket_executor::ErrorCode::{
    CancelFailed, InvalidToken, MinOrderSize, MinShares, NotInitialized, OrderFailed, Success,
};
use polymarket_executor::{
    complete_balance, complete_cancel, complete_limit_buy, complete_limit_sell,
    complete_market_buy, complete_market_sell, complete_prefetch, polymarket_cancel,
    polymarket_cancel_all, polymarket_get_balance, polymarket_get_token_balance,
    polymarket_limit_buy, polymarket_limit_sell, polymarket_market_buy, polymarket_market_sell,
    polymarket_prefetch, refused_order, BalanceQuery, CancelAll, DecimalValue, MinSizeCache,
    OrderAmount, OrderKind, OrderRequest, OrderResponse, Outcome, PolymarketOrderResult, Side,
    Step, TokenId,
};

const TOKEN: &str = "71321045679252212594626385532706912750332728571942532289631379312455583992563";
const SESSION: Option<&u8> = Some(&1);
const NO_SESSION: Option<&u8> = None;

fn dec(mantissa: i128, scale: u32) -> DecimalValue {
    DecimalValue::new(mantissa, scale).unwrap()
}

fn token() -> TokenId {
    TokenId::parse(TOKEN).unwrap()
}

fn response(success: bool, id: &str, making: DecimalValue, taking: DecimalValue) -> OrderResponse {
    OrderResponse {
        success,
        order_id: id.to_string(),
        making_amount: making,
        taking_amount: taking,
    }
}

fn failure(code: i32, latency_ms: u64) -> PolymarketOrderResult {
    let mut r = PolymarketOrderResult::default();
    r.error_code = code;
    r.latency_ms = latency_ms;
    r
}

// ---- no session ----

#[test]
fn every_operation_needs_a_session() {
    let amount = Some(dec(10, 0));
    let price = Some(dec(37, 2));
    assert_eq!(polymarket_market_buy(NO_SESSION, Some(TOKEN), amount), Step::Done(NotInitialized));
    assert_eq!(polymarket_market_sell(NO_SESSION, Some(TOKEN), amount), Step::Done(NotInitialized));
    assert_eq!(
        polymarket_limit_buy(NO_SESSION, Some(TOKEN), price, amount, None),
        Step::Done(NotInitialized)
    );
    assert_eq!(
        polymarket_limit_sell(NO_SESSION, Some(TOKEN), price, amount),
        Step::Done(NotInitialized)
    );
    assert_eq!(polymarket_prefetch(NO_SESSION, Some(TOKEN)), Step::Done(NotInitialized));
    assert_eq!(polymarket_cancel(NO_SESSION, Some("0xabc")), Step::Done(NotInitialized));
    assert_eq!(polymarket_cancel_all(NO_SESSION), Step::Done(NotInitialized));
    assert_eq!(polymarket_get_balance(NO_SESSION), Step::Done(BALANCE_UNAVAILABLE));
    assert_eq!(
        polymarket_get_token_balance(NO_SESSION, Some(TOKEN)),
        Step::Done(BALANCE_UNAVAILABLE)
    );
}

#[test]
fn a_missing_session_is_reported_before_anything_else() {
    assert_eq!(
        polymarket_market_buy(NO_SESSION, Some("no token"), None),
        Step::Done(NotInitialized)
    );
    assert_eq!(polymarket_market_sell(NO_SESSION, None, None), Step::Done(NotInitialized));
    assert_eq!(
        polymarket_limit_buy(NO_SESSION, None, None, Some(dec(1, 1)), None),
        Step::Done(NotInitialized)
    );
    assert_eq!(
        polymarket_limit_sell(NO_SESSION, Some("x"), None, None),
        Step::Done(NotInitialized)
    );
    assert_eq!(polymarket_prefetch(NO_SESSION, None), Step::Done(NotInitialized));
    assert_eq!(polymarket_cancel(NO_SESSION, None), Step::Done(NotInitialized));
    assert_eq!(
        polymarket_get_token_balance(NO_SESSION, Some("x")),
        Step::Done(BALANCE_UNAVAILABLE)
    );
}

// ---- tokens ----

#[test]
fn a_text_that_is_no_number_is_an_invalid_token() {
    let amount = Some(dec(10, 0));
    let price = Some(dec(37, 2));
    for text in ["abc", "12a", "12 3", "-5", "1.5", "tok€n", "0x1f", "1_000"] {
        assert_eq!(polymarket_market_buy(SESSION, Some(text), amount), Step::Done(InvalidToken));
        assert_eq!(polymarket_market_sell(SESSION, Some(text), amount), Step::Done(InvalidToken));
        assert_eq!(
            polymarket_limit_buy(SESSION, Some(text), price, amount, None),
            Step::Done(InvalidToken)
        );
        assert_eq!(
            polymarket_limit_sell(SESSION, Some(text), price, amount),
            Step::Done(InvalidToken)
        );
        assert_eq!(polymarket_prefetch(SESSION, Some(text)), Step::Done(InvalidToken));
        assert_eq!(
            polymarket_get_token_balance(SESSION, Some(text)),
            Step::Done(BALANCE_UNAVAILABLE)
        );
    }
}

#[test]
fn a_missing_token_is_an_invalid_token() {
    let amount = Some(dec(10, 0));
    let price = Some(dec(37, 2));
    assert_eq!(polymarket_market_buy(SESSION, None, amount), Step::Done(InvalidToken));
    assert_eq!(polymarket_market_sell(SESSION, None, amount), Step::Done(InvalidToken));
    assert_eq!(polymarket_limit_buy(SESSION, None, price, amount, None), Step::Done(InvalidToken));
    assert_eq!(polymarket_limit_sell(SESSION, None, price, amount), Step::Done(InvalidToken));
    assert_eq!(polymarket_prefetch(SESSION, None), Step::Done(InvalidToken));
    assert_eq!(polymarket_get_token_balance(SESSION, None), Step::Done(BALANCE_UNAVAILABLE));
}

#[test]
fn an_invalid_token_is_reported_before_the_amounts_are_looked_at() {
    assert_eq!(polymarket_market_buy(SESSION, Some("x"), None), Step::Done(InvalidToken));
    assert_eq!(
        polymarket_limit_buy(SESSION, Some("x"), None, Some(dec(1, 1)), None),
        Step::Done(InvalidToken)
    );
    assert_eq!(polymarket_limit_sell(SESSION, Some("x"), None, None), Step::Done(InvalidToken));
    assert_eq!(polymarket_market_sell(SESSION, Some("x"), None), Step::Done(InvalidToken));
}

// ---- market buy ----

#[test]
fn market_buy_spends_currency_at_the_top_of_the_range() {
    let step = polymarket_market_buy(SESSION, Some(TOKEN), Some(dec(10, 0)));
    assert_eq!(
        step,
        Step::Call(OrderRequest {
            token: token(),
            side: Side::Buy,
            kind: OrderKind::FillAndKill,
            amount: OrderAmount::Currency(dec(10, 0)),
            price: dec(99, 2),
        })
    );
}

#[test]
fn market_buy_floors_the_spend_to_six_decimals() {
    let step = polymarket_market_buy(SESSION, Some(TOKEN), Some(dec(10_123_456_789, 9)));
    match step {
        Step::Call(request) => {
            assert_eq!(request.amount, OrderAmount::Currency(dec(10_123_456, 6)))
        }
        Step::Done(code) => panic!("refused with {:?}", code),
    }
}

#[test]
fn market_buy_without_a_decimal_amount_fails() {
    assert_eq!(polymarket_market_buy(SESSION, Some(TOKEN), None), Step::Done(OrderFailed));
}

#[test]
fn market_buy_reports_net_shares_and_average_price() {
    // 100 shares for 50 of currency: average 0.5, fee 1.5625 shares
    let outcome = Outcome::Completed(response(true, "0xorder", dec(50, 0), dec(100, 0)));
    let r = complete_market_buy(outcome, 87);
    assert!(r.success);
    assert_eq!(r.filled_qty_raw, 98_437_500);
    assert_eq!(r.avg_price_raw, 500_000);
    assert_eq!(r.latency_ms, 87);
    assert_eq!(r.error_code, 0);
    assert_eq!(r.order_id_bytes(), b"0xorder".to_vec());
}

#[test]
fn market_buy_with_nothing_filled() {
    let outcome = Outcome::Completed(response(false, "", dec(0, 0), dec(0, 0)));
    let r = complete_market_buy(outcome, 12);
    assert!(!r.success);
    assert_eq!(r.filled_qty_raw, 0);
    assert_eq!(r.avg_price_raw, 0);
    assert_eq!(r.latency_ms, 12);
    assert_eq!(r.error_code, 0);
    assert!(r.order_id_bytes().is_empty());
}

#[test]
fn market_buy_at_thirty_seven_cents() {
    // 27.03 shares for 10.0011 of currency
    let outcome = Outcome::Completed(response(true, "id", dec(100_011, 4), dec(2703, 2)));
    let r = complete_market_buy(outcome, 1);
    assert_eq!(r.avg_price_raw, 370_000);
    assert_eq!(r.filled_qty_raw, 27_030_000 - 367_173);
}

#[test]
fn market_buy_takes_the_fee_at_the_uncut_price() {
    // 3 shares for 1 of currency: the reported price is cut, the fee is not
    let outcome = Outcome::Completed(response(true, "id", dec(1, 0), dec(3, 0)));
    let r = complete_market_buy(outcome, 1);
    assert_eq!(r.avg_price_raw, 333_333);
    assert_eq!(r.filled_qty_raw, 2_962_962);
    // 3000 shares for 1000 of currency
    let outcome = Outcome::Completed(response(true, "id", dec(1000, 0), dec(3000, 0)));
    let r = complete_market_buy(outcome, 1);
    assert_eq!(r.avg_price_raw, 333_333);
    assert_eq!(r.filled_qty_raw, 2_962_962_962);
}

#[test]
fn market_buy_failure_and_timeout_are_order_failures_with_latency() {
    assert_eq!(complete_market_buy(Outcome::Failed, 35), failure(-5, 35));
    assert_eq!(complete_market_buy(Outcome::TimedOut, 10_004), failure(-5, 10_004));
}

// ---- limit buy ----

#[test]
fn limit_buy_asks_for_the_share_count_rounded_up() {
    let step = polymarket_limit_buy(SESSION, Some(TOKEN), Some(dec(37, 2)), Some(dec(10, 0)), None);
    assert_eq!(
        step,
        Step::Call(OrderRequest {
            token: token(),
            side: Side::Buy,
            kind: OrderKind::GoodTillCancelled,
            amount: OrderAmount::Shares(dec(2703, 2)),
            price: dec(37, 2),
        })
    );
}

#[test]
fn limit_buy_below_one_unit_of_currency_is_refused() {
    let price = Some(dec(37, 2));
    assert_eq!(
        polymarket_limit_buy(SESSION, Some(TOKEN), price, Some(dec(999_999, 6)), None),
        Step::Done(MinOrderSize)
    );
    assert_eq!(
        polymarket_limit_buy(SESSION, Some(TOKEN), price, Some(dec(0, 0)), None),
        Step::Done(MinOrderSize)
    );
    assert_eq!(
        polymarket_limit_buy(SESSION, Some(TOKEN), price, Some(dec(-5, 0)), None),
        Step::Done(MinOrderSize)
    );
    // the floor is checked before the price is looked at
    assert_eq!(
        polymarket_limit_buy(SESSION, Some(TOKEN), None, Some(dec(5, 1)), None),
        Step::Done(MinOrderSize)
    );
    // exactly one unit passes
    let step = polymarket_limit_buy(SESSION, Some(TOKEN), Some(dec(5, 1)), Some(dec(1, 0)), None);
    match step {
        Step::Call(request) => assert_eq!(request.amount, OrderAmount::Shares(dec(200, 2))),
        Step::Done(code) => panic!("refused with {:?}", code),
    }
}

#[test]
fn limit_buy_below_the_cached_minimum_is_refused() {
    let mut cache = MinSizeCache::new();
    cache.insert(TOKEN, dec(5, 0));
    // 1 / 0.5 = 2 shares, below 5
    assert_eq!(
        polymarket_limit_buy(SESSION, Some(TOKEN), Some(dec(5, 1)), Some(dec(1, 0)), Some(&cache)),
        Step::Done(MinShares)
    );
    // 2.5 / 0.5 = 5 shares, not below 5
    let step =
        polymarket_limit_buy(SESSION, Some(TOKEN), Some(dec(5, 1)), Some(dec(25, 1)), Some(&cache));
    match step {
        Step::Call(request) => assert_eq!(request.amount, OrderAmount::Shares(dec(500, 2))),
        Step::Done(code) => panic!("refused with {:?}", code),
    }
}

#[test]
fn limit_buy_checks_no_minimum_without_entry_or_without_cache() {
    let mut cache = MinSizeCache::new();
    cache.insert("999", dec(5, 0));
    let with_other_entry =
        polymarket_limit_buy(SESSION, Some(TOKEN), Some(dec(5, 1)), Some(dec(1, 0)), Some(&cache));
    assert!(matches!(with_other_entry, Step::Call(_)));
    cache.insert(TOKEN, dec(5, 0));
    let unreadable =
        polymarket_limit_buy(SESSION, Some(TOKEN), Some(dec(5, 1)), Some(dec(1, 0)), None);
    assert!(matches!(unreadable, Step::Call(_)));
}

#[test]
fn limit_buy_without_decimals_or_positive_price_fails() {
    let spend = Some(dec(10, 0));
    assert_eq!(
        polymarket_limit_buy(SESSION, Some(TOKEN), None, spend, None),
        Step::Done(OrderFailed)
    );
    assert_eq!(
        polymarket_limit_buy(SESSION, Some(TOKEN), Some(dec(37, 2)), None, None),
        Step::Done(OrderFailed)
    );
    assert_eq!(
        polymarket_limit_buy(SESSION, Some(TOKEN), Some(dec(0, 0)), spend, None),
        Step::Done(OrderFailed)
    );
    assert_eq!(
        polymarket_limit_buy(SESSION, Some(TOKEN), Some(dec(-37, 2)), spend, None),
        Step::Done(OrderFailed)
    );
    // a count of more than 96 bits
    assert_eq!(
        polymarket_limit_buy(
            SESSION,
            Some(TOKEN),
            Some(dec(1, 28)),
            Some(dec(100_000_000_000_000_000_000, 0)),
            None
        ),
        Step::Done(OrderFailed)
    );
}

#[test]
fn limit_buy_compares_with_the_minimum_before_the_range_of_the_count() {
    // 10^28 shares are more than a decimal of two places holds
    let spend = Some(dec(100_000_000_000_000_000_000, 0));
    let price = Some(dec(1, 8));
    let mut cache = MinSizeCache::new();
    cache.insert(TOKEN, dec(70_000_000_000_000_000_000_000_000_000, 0));
    assert_eq!(
        polymarket_limit_buy(SESSION, Some(TOKEN), price, spend, Some(&cache)),
        Step::Done(MinShares)
    );
    cache.insert(TOKEN, dec(5, 0));
    assert_eq!(
        polymarket_limit_buy(SESSION, Some(TOKEN), price, spend, Some(&cache)),
        Step::Done(OrderFailed)
    );
    assert_eq!(
        polymarket_limit_buy(SESSION, Some(TOKEN), price, spend, None),
        Step::Done(OrderFailed)
    );
}

#[test]
fn limit_buy_reports_the_requested_price() {
    let request = OrderRequest {
        token: token(),
        side: Side::Buy,
        kind: OrderKind::GoodTillCancelled,
        amount: OrderAmount::Shares(dec(2703, 2)),
        price: dec(37, 2),
    };
    // resting: nothing taken yet
    let resting = Outcome::Completed(response(true, "0xrest", dec(0, 0), dec(0, 0)));
    let r = complete_limit_buy(&request, resting, 140);
    assert!(r.success);
    assert_eq!(r.filled_qty_raw, 0);
    assert_eq!(r.avg_price_raw, 370_000);
    assert_eq!(r.latency_ms, 140);
    assert_eq!(r.error_code, 0);
    assert_eq!(r.order_id_bytes(), b"0xrest".to_vec());
    // filled at once: the shares received, no fee taken off
    let filled = Outcome::Completed(response(true, "0xfill", dec(100_011, 4), dec(2703, 2)));
    let r = complete_limit_buy(&request, filled, 141);
    assert_eq!(r.filled_qty_raw, 27_030_000);
    assert_eq!(r.avg_price_raw, 370_000);
}

#[test]
fn limit_buy_failure_and_timeout_are_order_failures_with_latency() {
    let request = OrderRequest {
        token: token(),
        side: Side::Buy,
        kind: OrderKind::GoodTillCancelled,
        amount: OrderAmount::Shares(dec(2703, 2)),
        price: dec(37, 2),
    };
    assert_eq!(complete_limit_buy(&request, Outcome::Failed, 9), failure(-5, 9));
    assert_eq!(complete_limit_buy(&request, Outcome::TimedOut, 10_000), failure(-5, 10_000));
}

// ---- limit sell ----

#[test]
fn limit_sell_floors_the_size_to_two_decimals() {
    let step = polymarket_limit_sell(SESSION, Some(TOKEN), Some(dec(63, 2)), Some(dec(27_039, 3)));
    assert_eq!(
        step,
        Step::Call(OrderRequest {
            token: token(),
            side: Side::Sell,
            kind: OrderKind::GoodTillCancelled,
            amount: OrderAmount::Shares(dec(2703, 2)),
            price: dec(63, 2),
        })
    );
}

#[test]
fn limit_sell_checks_no_minimum() {
    let step = polymarket_limit_sell(SESSION, Some(TOKEN), Some(dec(63, 2)), Some(dec(1, 2)));
    assert!(matches!(step, Step::Call(_)));
}

#[test]
fn limit_sell_without_decimals_fails() {
    assert_eq!(
        polymarket_limit_sell(SESSION, Some(TOKEN), None, Some(dec(1, 0))),
        Step::Done(OrderFailed)
    );
    assert_eq!(
        polymarket_limit_sell(SESSION, Some(TOKEN), Some(dec(63, 2)), None),
        Step::Done(OrderFailed)
    );
    assert_eq!(polymarket_limit_sell(SESSION, Some(TOKEN), None, None), Step::Done(OrderFailed));
}

#[test]
fn limit_sell_reports_shares_given_and_the_requested_price() {
    let request = OrderRequest {
        token: token(),
        side: Side::Sell,
        kind: OrderKind::GoodTillCancelled,
        amount: OrderAmount::Shares(dec(2703, 2)),
        price: dec(63, 2),
    };
    let outcome = Outcome::Completed(response(true, "0xsell", dec(2703, 2), dec(170_289, 4)));
    let r = complete_limit_sell(&request, outcome, 77);
    assert!(r.success);
    assert_eq!(r.filled_qty_raw, 27_030_000);
    assert_eq!(r.avg_price_raw, 630_000);
    assert_eq!(r.latency_ms, 77);
    assert_eq!(r.error_code, 0);
    assert_eq!(r.order_id_bytes(), b"0xsell".to_vec());
    assert_eq!(complete_limit_sell(&request, Outcome::Failed, 3), failure(-5, 3));
    assert_eq!(complete_limit_sell(&request, Outcome::TimedOut, 10_001), failure(-5, 10_001));
}

// ---- market sell ----

#[test]
fn market_sell_sells_shares_at_the_bottom_of_the_range() {
    let step = polymarket_market_sell(SESSION, Some(TOKEN), Some(dec(98_437_500, 6)));
    assert_eq!(
        step,
        Step::Call(OrderRequest {
            token: token(),
            side: Side::Sell,
            kind: OrderKind::FillAndKill,
            amount: OrderAmount::Shares(dec(9843, 2)),
            price: dec(1, 2),
        })
    );
}

#[test]
fn market_sell_without_a_decimal_size_fails() {
    assert_eq!(polymarket_market_sell(SESSION, Some(TOKEN), None), Step::Done(OrderFailed));
}

#[test]
fn market_sell_reports_shares_sold_and_average_price() {
    // 25 shares for 12.5 of currency
    let outcome = Outcome::Completed(response(true, "0xsold", dec(25, 0), dec(125, 1)));
    let r = complete_market_sell(outcome, 91);
    assert!(r.success);
    assert_eq!(r.filled_qty_raw, 25_000_000);
    assert_eq!(r.avg_price_raw, 500_000);
    assert_eq!(r.latency_ms, 91);
    assert_eq!(r.error_code, 0);
    assert_eq!(r.order_id_bytes(), b"0xsold".to_vec());
}

#[test]
fn market_sell_average_is_cut_to_six_decimals() {
    // 3 shares for 1 of currency: 0.333333...
    let outcome = Outcome::Completed(response(true, "x", dec(3, 0), dec(1, 0)));
    let r = complete_market_sell(outcome, 1);
    assert_eq!(r.filled_qty_raw, 3_000_000);
    assert_eq!(r.avg_price_raw, 333_333);
}

#[test]
fn market_sell_with_nothing_sold_has_a_zero_average() {
    let outcome = Outcome::Completed(response(false, "", dec(0, 2), dec(5, 0)));
    let r = complete_market_sell(outcome, 4);
    assert_eq!(r.filled_qty_raw, 0);
    assert_eq!(r.avg_price_raw, 0);
    assert_eq!(r.error_code, 0);
}

#[test]
fn market_sell_takes_no_fee() {
    let outcome = Outcome::Completed(response(true, "x", dec(100, 0), dec(50, 0)));
    let r = complete_market_sell(outcome, 1);
    assert_eq!(r.filled_qty_raw, 100_000_000);
    assert_eq!(r.avg_price_raw, 500_000);
}

#[test]
fn market_sell_record_for_each_average() {
    let resp = response(true, "0xid", dec(25, 0), dec(125, 1));
    let r = market_sell_record(&resp, Some(dec(5, 1)), 8);
    assert_eq!(r.filled_qty_raw, 25_000_000);
    assert_eq!(r.avg_price_raw, 500_000);
    assert_eq!(r.latency_ms, 8);
    assert_eq!(r.order_id_bytes(), b"0xid".to_vec());
    let r = market_sell_record(&resp, None, 8);
    assert_eq!(r.filled_qty_raw, 25_000_000);
    assert_eq!(r.avg_price_raw, 0);
    let r = market_sell_record(&resp, Some(dec(123_456_789, 8)), 8);
    assert_eq!(r.avg_price_raw, 1_234_567);
}

#[test]
fn market_sell_failure_and_timeout_are_order_failures_with_latency() {
    assert_eq!(complete_market_sell(Outcome::Failed, 14), failure(-5, 14));
    assert_eq!(complete_market_sell(Outcome::TimedOut, 10_002), failure(-5, 10_002));
}

// ---- cancel ----

#[test]
fn cancel_passes_the_order_identifier_on() {
    assert_eq!(polymarket_cancel(SESSION, Some("0xabc")), Step::Call("0xabc".to_string()));
    assert_eq!(polymarket_cancel(SESSION, Some("")), Step::Call(String::new()));
}

#[test]
fn cancel_without_an_identifier_fails() {
    assert_eq!(polymarket_cancel(SESSION, None), Step::Done(CancelFailed));
}

#[test]
fn cancel_all_with_a_session() {
    assert_eq!(polymarket_cancel_all(SESSION), Step::Call(CancelAll));
}

#[test]
fn cancel_outcomes() {
    assert_eq!(complete_cancel(Outcome::Completed(())), Success);
    assert_eq!(complete_cancel(Outcome::Failed), CancelFailed);
    assert_eq!(complete_cancel(Outcome::TimedOut), CancelFailed);
}

// ---- balances ----

#[test]
fn balance_queries() {
    assert_eq!(polymarket_get_balance(SESSION), Step::Call(BalanceQuery::Collateral));
    assert_eq!(
        polymarket_get_token_balance(SESSION, Some(TOKEN)),
        Step::Call(BalanceQuery::Conditional(token()))
    );
    assert_eq!(
        polymarket_get_token_balance(SESSION, Some("42")),
        Step::Call(BalanceQuery::Conditional(TokenId { limbs: [42, 0, 0, 0] }))
    );
}

#[test]
fn balance_in_raw_units() {
    assert_eq!(complete_balance(Outcome::Completed(dec(1_234_567, 6))), 1_234_567);
    assert_eq!(complete_balance(Outcome::Completed(dec(15, 1))), 1_500_000);
    assert_eq!(complete_balance(Outcome::Completed(dec(0, 0))), 0);
    assert_eq!(complete_balance(Outcome::Completed(dec(123_456_789, 8))), 1_234_567);
}

#[test]
fn balance_failure_is_the_negative_sentinel() {
    assert_eq!(BALANCE_UNAVAILABLE, -1);
    assert_eq!(complete_balance(Outcome::Failed), -1);
    assert_eq!(complete_balance(Outcome::TimedOut), -1);
}

// ---- prefetch ----

#[test]
fn prefetch_asks_for_the_metadata_of_the_token() {
    assert_eq!(polymarket_prefetch(SESSION, Some(TOKEN)), Step::Call(token()));
    assert_eq!(
        polymarket_prefetch(SESSION, Some("7")),
        Step::Call(TokenId { limbs: [7, 0, 0, 0] })
    );
}

#[test]
fn prefetch_stores_the_minimum_under_the_token_text() {
    let mut cache = MinSizeCache::new();
    assert_eq!(complete_prefetch(Some(&mut cache), TOKEN, Outcome::Completed(dec(5, 0))), Success);
    assert_eq!(cache.get(TOKEN), Some(dec(5, 0)));
    assert_eq!(complete_prefetch(Some(&mut cache), TOKEN, Outcome::Completed(dec(15, 0))), Success);
    assert_eq!(cache.get(TOKEN), Some(dec(15, 0)));
}

#[test]
fn prefetch_failure_leaves_the_cache() {
    let mut cache = MinSizeCache::new();
    assert_eq!(complete_prefetch(Some(&mut cache), TOKEN, Outcome::Failed), OrderFailed);
    assert_eq!(cache.get(TOKEN), None);
    cache.insert(TOKEN, dec(5, 0));
    assert_eq!(complete_prefetch(Some(&mut cache), TOKEN, Outcome::TimedOut), OrderFailed);
    assert_eq!(cache.get(TOKEN), Some(dec(5, 0)));
}

#[test]
fn prefetch_without_a_writable_cache_still_succeeds() {
    assert_eq!(complete_prefetch(None, TOKEN, Outcome::Completed(dec(5, 0))), Success);
    assert_eq!(complete_prefetch(None, TOKEN, Outcome::Failed), OrderFailed);
}

#[test]
fn prefetch_then_limit_buy() {
    let mut cache = MinSizeCache::new();
    assert_eq!(complete_prefetch(Some(&mut cache), TOKEN, Outcome::Completed(dec(30, 0))), Success);
    // 27.03 shares are below the minimum of 30
    assert_eq!(
        polymarket_limit_buy(
            SESSION,
            Some(TOKEN),
            Some(dec(37, 2)),
            Some(dec(10, 0)),
            Some(&cache)
        ),
        Step::Done(MinShares)
    );
    assert_eq!(
        complete_prefetch(Some(&mut cache), TOKEN, Outcome::Completed(dec(2703, 2))),
        Success
    );
    let step = polymarket_limit_buy(
        SESSION,
        Some(TOKEN),
        Some(dec(37, 2)),
        Some(dec(10, 0)),
        Some(&cache),
    );
    assert!(matches!(step, Step::Call(_)));
}

#[test]
fn a_refused_order_carries_code_and_latency() {
    assert_eq!(refused_order(NotInitialized, 0), failure(-1, 0));
    assert_eq!(refused_order(InvalidToken, 1), failure(-4, 1));
    assert_eq!(refused_order(MinOrderSize, 2), failure(-7, 2));
    assert_eq!(refused_order(MinShares, 3), failure(-8, 3));
    assert_eq!(refused_order(OrderFailed, u64::MAX), failure(-5, u64::MAX));
}

// ---- orders from validated amounts ----

#[test]
fn market_buy_order_for_a_token() {
    let t = TokenId { limbs: [42, 0, 0, 0] };
    assert_eq!(
        market_buy_order(t, Some(dec(2_500_000_9, 7))),
        Ok(OrderRequest {
            token: t,
            side: Side::Buy,
            kind: OrderKind::FillAndKill,
            amount: OrderAmount::Currency(dec(2_500_000, 6)),
            price: dec(99, 2),
        })
    );
    assert_eq!(market_buy_order(t, None), Err(OrderFailed));
}

#[test]
fn market_sell_order_for_a_token() {
    let t = TokenId { limbs: [1, 2, 3, 4] };
    assert_eq!(
        market_sell_order(t, Some(dec(1999, 3))),
        Ok(OrderRequest {
            token: t,
            side: Side::Sell,
            kind: OrderKind::FillAndKill,
            amount: OrderAmount::Shares(dec(199, 2)),
            price: dec(1, 2),
        })
    );
    assert_eq!(market_sell_order(t, None), Err(OrderFailed));
}

#[test]
fn limit_sell_order_for_a_token() {
    let t = TokenId { limbs: [7, 0, 0, 0] };
    assert_eq!(
        limit_sell_order(t, Some(dec(5, 1)), Some(dec(3, 0))),
        Ok(OrderRequest {
            token: t,
            side: Side::Sell,
            kind: OrderKind::GoodTillCancelled,
            amount: OrderAmount::Shares(dec(3, 0)),
            price: dec(5, 1),
        })
    );
    assert_eq!(limit_sell_order(t, None, Some(dec(3, 0))), Err(OrderFailed));
    assert_eq!(limit_sell_order(t, Some(dec(5, 1)), None), Err(OrderFailed));
}

#[test]
fn limit_buy_order_follows_the_policy() {
    let t = TokenId { limbs: [7, 0, 0, 0] };
    let price = Some(dec(37, 2));
    let ten = Some(dec(10, 0));
    assert_eq!(
        limit_buy_order(t, price, ten, None),
        Ok(OrderRequest {
            token: t,
            side: Side::Buy,
            kind: OrderKind::GoodTillCancelled,
            amount: OrderAmount::Shares(dec(2703, 2)),
            price: dec(37, 2),
        })
    );
    // the minimum is met exactly, in whatever scale it is given
    assert!(limit_buy_order(t, price, ten, Some(dec(2703, 2))).is_ok());
    assert!(limit_buy_order(t, price, ten, Some(dec(27_030_000, 6))).is_ok());
    // the minimum is missed by one thousandth of a share
    assert_eq!(limit_buy_order(t, price, ten, Some(dec(27_031, 3))), Err(MinShares));
    // the floor of the spend comes first
    assert_eq!(
        limit_buy_order(t, price, Some(dec(99, 2)), Some(dec(1000, 0))),
        Err(MinOrderSize)
    );
    assert_eq!(limit_buy_order(t, None, Some(dec(99, 2)), None), Err(MinOrderSize));
    // a price that is not positive fails the order, whatever the minimum
    assert_eq!(
        limit_buy_order(t, Some(dec(0, 0)), ten, Some(dec(1000, 0))),
        Err(OrderFailed)
    );
    assert_eq!(limit_buy_order(t, None, ten, Some(dec(1000, 0))), Err(OrderFailed));
    assert_eq!(limit_buy_order(t, price, None, Some(dec(1000, 0))), Err(OrderFailed));
}
