//! Orders: how the four order calls turn validated amounts into an order for
//! the exchange, and how they decode what the exchange answered.
//!
//! Amounts arrive as decimals (`None` where the host's number is no decimal)
//! and are rounded by the rule of the call: currency to spend is floored to
//! six decimals, shares to sell are floored to two, and the shares of a limit
//! buy are `spend / price` rounded up to two decimals.

use crate::codes::{ErrorCode, POLYMARKET_ERR_ORDER_FAILED};
use crate::fees::{average_price, average_price_raw, clamp_i64, net_of_fee, net_shares_of_fill};
use crate::fixed_point::{
    decimal_quotient, decimal_to_raw, shares_below_minimum, shares_countable, shares_defined,
    shares_for_spend, shares_hundredths, DecimalSpec, DecimalValue, RAW_PLACES, SHARE_PLACES,
};
use crate::order_result::PolymarketOrderResult;
use crate::protocol::Outcome;
use crate::token::TokenId;
use vstd::prelude::*;

verus! {

/// Side of an order.
#[derive(Clone, Copy, Debug, PartialEq, Eq)]
pub enum Side {
    Buy,
    Sell,
}

/// How long an order lives.
#[derive(Clone, Copy, Debug, PartialEq, Eq)]
pub enum OrderKind {
    /// Immediate-or-cancel: fill what is there now, cancel the rest.
    FillAndKill,
    /// Good-till-cancelled: rest in the book until filled or cancelled.
    GoodTillCancelled,
}

/// Size of an order: currency to spend, or shares to trade.
#[derive(Clone, Copy, Debug, PartialEq, Eq)]
pub enum OrderAmount {
    Currency(DecimalValue),
    Shares(DecimalValue),
}

/// An order, ready to be built, signed and submitted.
#[derive(Clone, Copy, Debug, PartialEq, Eq)]
pub struct OrderRequest {
    pub token: TokenId,
    pub side: Side,
    pub kind: OrderKind,
    pub amount: OrderAmount,
    pub price: DecimalValue,
}

/// What the exchange answers to a submitted order.
#[derive(Debug, PartialEq, Eq)]
pub struct OrderResponse {
    pub success: bool,
    pub order_id: String,
    /// What the maker side of the order gave: currency for a buy, shares for
    /// a sell.
    pub making_amount: DecimalValue,
    /// What the taker side received: shares for a buy, currency for a sell.
    pub taking_amount: DecimalValue,
}

impl OrderAmount {
    /// The amount is in shares.
    pub open spec fn in_shares(self) -> bool {
        self is Shares
    }

    /// The number of the amount, whatever its unit.
    pub open spec fn number(self) -> DecimalSpec {
        match self {
            OrderAmount::Currency(a) => a@,
            OrderAmount::Shares(a) => a@,
        }
    }
}

impl OrderRequest {
    /// The request carries the given side, kind, amount and price.
    pub open spec fn has_terms(
        self,
        side: Side,
        kind: OrderKind,
        in_shares: bool,
        amount: DecimalSpec,
        price: DecimalSpec,
    ) -> bool {
        &&& self.side == side
        &&& self.kind == kind
        &&& self.amount.in_shares() == in_shares
        &&& self.amount.number() == amount
        &&& self.price@ == price
    }
}

/// The price of a market buy: near the top of the range, so that the order
/// sweeps the book instead of resting.
pub open spec fn market_buy_price() -> DecimalSpec {
    DecimalSpec { mantissa: 99, scale: 2 }
}

/// The price of a market sell: near the bottom of the range.
pub open spec fn market_sell_price() -> DecimalSpec {
    DecimalSpec { mantissa: 1, scale: 2 }
}

/// The least spend of a limit buy: one unit of currency.
pub open spec fn min_order_spend() -> DecimalSpec {
    DecimalSpec { mantissa: 1, scale: 0 }
}

/// The view of an amount that may be missing.
pub open spec fn number_of(amount: Option<DecimalValue>) -> Option<DecimalSpec> {
    match amount {
        Some(a) => Some(a@),
        None => None,
    }
}

/// The share count of a limit buy as a decimal with two places.
pub open spec fn limit_buy_shares(spend: DecimalSpec, price: DecimalSpec) -> DecimalSpec {
    DecimalSpec { mantissa: shares_hundredths(spend, price), scale: SHARE_PLACES as nat }
}

/// The validation policy of a limit buy, in the order of its checks. A spend
/// below the floor is refused first. A spend or price that is no decimal, and
/// a price that is not positive, fail the order: there is no share count.
/// Then the share count is compared with the minimum of the market, if one
/// is known, and refused where it is below it. At last a count that passed
/// but is beyond the range of a decimal (more than 96 bits of hundredths)
/// fails the order, since the exchange cannot be asked for it.
pub open spec fn limit_buy_policy(
    spend: Option<DecimalSpec>,
    price: Option<DecimalSpec>,
    min_shares: Option<DecimalSpec>,
) -> Result<DecimalSpec, ErrorCode> {
    if spend matches Some(s) && s.lt(min_order_spend()) {
        Err(ErrorCode::MinOrderSize)
    } else if spend is None || price is None || !shares_countable(spend->0, price->0) {
        Err(ErrorCode::OrderFailed)
    } else if min_shares matches Some(m) && limit_buy_shares(spend->0, price->0).lt(m) {
        Err(ErrorCode::MinShares)
    } else if !shares_defined(spend->0, price->0) {
        Err(ErrorCode::OrderFailed)
    } else {
        Ok(limit_buy_shares(spend->0, price->0))
    }
}

/// The 64-bit raw value that a decimal converts to.
pub open spec fn held_raw(d: DecimalSpec) -> i64 {
    d.raw_units() as i64
}

/// Average price of a market buy: currency paid over shares received.
pub open spec fn market_buy_average(response: OrderResponse) -> i64 {
    clamp_i64(
        average_price(
            held_raw(response.making_amount@) as int,
            held_raw(response.taking_amount@) as int,
        ),
    ) as i64
}

/// Shares of a market buy after the taker fee at the average price of the
/// fill: the exact quotient of currency paid by shares received, not the
/// reported price cut to six decimals.
pub open spec fn market_buy_net(response: OrderResponse) -> i64 {
    clamp_i64(
        net_of_fee(
            held_raw(response.taking_amount@) as int,
            held_raw(response.making_amount@) as int,
        ),
    ) as i64
}

/// Average price of a market sell as a decimal: currency received over
/// shares sold, zero where no share was sold; `None` where that quotient
/// cannot be held.
pub open spec fn market_sell_quotient(response: OrderResponse) -> Option<DecimalSpec> {
    if response.making_amount@.mantissa == 0 {
        Some(DecimalSpec { mantissa: 0, scale: 0 })
    } else {
        decimal_quotient(response.taking_amount@, response.making_amount@)
    }
}

/// The raw average price of a market sell: the quotient in raw units, zero
/// where there is none.
pub open spec fn sell_average_raw(average: Option<DecimalSpec>) -> i64 {
    match average {
        Some(a) => held_raw(a),
        None => 0,
    }
}

/// The order of a market buy: spend `usdc_amount`, floored to six decimals,
/// at once or not at all, at a price near the top of the range.
pub fn market_buy_order(token: TokenId, usdc_amount: Option<DecimalValue>) -> (order: Result<
    OrderRequest,
    ErrorCode,
>)
    ensures
        usdc_amount is None ==> order == Err::<OrderRequest, ErrorCode>(ErrorCode::OrderFailed),
        usdc_amount is Some ==> (order matches Ok(request) && request.token == token
            && request.has_terms(
            Side::Buy,
            OrderKind::FillAndKill,
            false,
            usdc_amount->0@.floor_at(RAW_PLACES as nat),
            market_buy_price(),
        )),
{
    match usdc_amount {
        Some(amount) => Ok(
            OrderRequest {
                token,
                side: Side::Buy,
                kind: OrderKind::FillAndKill,
                amount: OrderAmount::Currency(amount.floor_to_places(RAW_PLACES)),
                price: DecimalValue::new(99, 2).unwrap(),
            },
        ),
        None => Err(ErrorCode::OrderFailed),
    }
}

/// The order of a market sell: sell `size` shares, floored to two decimals,
/// at once or not at all, at a price near the bottom of the range.
pub fn market_sell_order(token: TokenId, size: Option<DecimalValue>) -> (order: Result<
    OrderRequest,
    ErrorCode,
>)
    ensures
        size is None ==> order == Err::<OrderRequest, ErrorCode>(ErrorCode::OrderFailed),
        size is Some ==> (order matches Ok(request) && request.token == token && request.has_terms(
            Side::Sell,
            OrderKind::FillAndKill,
            true,
            size->0@.floor_at(SHARE_PLACES as nat),
            market_sell_price(),
        )),
{
    match size {
        Some(size) => Ok(
            OrderRequest {
                token,
                side: Side::Sell,
                kind: OrderKind::FillAndKill,
                amount: OrderAmount::Shares(size.floor_to_places(SHARE_PLACES)),
                price: DecimalValue::new(1, 2).unwrap(),
            },
        ),
        None => Err(ErrorCode::OrderFailed),
    }
}

/// The order of a limit buy: a resting order at `price` for the shares that
/// `usdc_amount` buys there, if the validation policy lets it pass.
/// `min_shares` is the minimum of the market where one is known.
pub fn limit_buy_order(
    token: TokenId,
    price: Option<DecimalValue>,
    usdc_amount: Option<DecimalValue>,
    min_shares: Option<DecimalValue>,
) -> (order: Result<OrderRequest, ErrorCode>)
    ensures
        match limit_buy_policy(number_of(usdc_amount), number_of(price), number_of(min_shares)) {
            Ok(shares) => (order matches Ok(request) && request.token == token
                && request.has_terms(
                Side::Buy,
                OrderKind::GoodTillCancelled,
                true,
                shares,
                price->0@,
            )),
            Err(code) => order == Err::<OrderRequest, ErrorCode>(code),
        },
{
    let floor = DecimalValue::new(1, 0).unwrap();
    let spend = match usdc_amount {
        Some(spend) => {
            if spend.lt(&floor) {
                return Err(ErrorCode::MinOrderSize);
            }
            spend
        },
        None => return Err(ErrorCode::OrderFailed),
    };
    let price = match price {
        Some(price) => price,
        None => return Err(ErrorCode::OrderFailed),
    };
    if let Some(min_shares) = min_shares {
        if shares_below_minimum(&spend, &price, &min_shares) {
            return Err(ErrorCode::MinShares);
        }
    }
    let shares = match shares_for_spend(&spend, &price) {
        Some(shares) => shares,
        None => return Err(ErrorCode::OrderFailed),
    };
    Ok(
        OrderRequest {
            token,
            side: Side::Buy,
            kind: OrderKind::GoodTillCancelled,
            amount: OrderAmount::Shares(shares),
            price,
        },
    )
}

/// The order of a limit sell: a resting order to sell `size` shares, floored
/// to two decimals, at `price`. No minimum is checked.
pub fn limit_sell_order(
    token: TokenId,
    price: Option<DecimalValue>,
    size: Option<DecimalValue>,
) -> (order: Result<OrderRequest, ErrorCode>)
    ensures
        (size is None || price is None) ==> order == Err::<OrderRequest, ErrorCode>(
            ErrorCode::OrderFailed,
        ),
        size is Some && price is Some ==> (order matches Ok(request) && request.token == token
            && request.has_terms(
            Side::Sell,
            OrderKind::GoodTillCancelled,
            true,
            size->0@.floor_at(SHARE_PLACES as nat),
            price->0@,
        )),
{
    let size = match size {
        Some(size) => size,
        None => return Err(ErrorCode::OrderFailed),
    };
    let price = match price {
        Some(price) => price,
        None => return Err(ErrorCode::OrderFailed),
    };
    Ok(
        OrderRequest {
            token,
            side: Side::Sell,
            kind: OrderKind::GoodTillCancelled,
            amount: OrderAmount::Shares(size.floor_to_places(SHARE_PLACES)),
            price,
        },
    )
}

/// The record of an order call that its first step refused: nothing but the
/// code and the latency measured up to the refusal.
pub fn refused_order(code: ErrorCode, latency_ms: u64) -> (r: PolymarketOrderResult)
    ensures
        r == PolymarketOrderResult::failed_after(code.number() as i32, latency_ms),
{
    PolymarketOrderResult::with_error_after(code.code(), latency_ms)
}

/// Second step of a market buy. On an answer the record carries the average
/// price (currency paid over shares received, cut to six decimals) and the
/// shares net of the taker fee; the fee is taken at the exact average price,
/// before it is cut. On a failure or timeout, `ORDER_FAILED` with the
/// latency.
pub fn complete_market_buy(outcome: Outcome<OrderResponse>, latency_ms: u64) -> (r:
    PolymarketOrderResult)
    ensures
        match outcome {
            Outcome::Completed(response) => r.reports(
                response.success,
                market_buy_net(response),
                market_buy_average(response),
                latency_ms,
                response.order_id@,
            ),
            _ => r == PolymarketOrderResult::failed_after(POLYMARKET_ERR_ORDER_FAILED, latency_ms),
        },
{
    match outcome {
        Outcome::Completed(response) => {
            let filled_raw = decimal_to_raw(response.taking_amount);
            let paid_raw = decimal_to_raw(response.making_amount);
            let avg_price_raw = average_price_raw(paid_raw, filled_raw);
            let net_raw = net_shares_of_fill(filled_raw, paid_raw);
            PolymarketOrderResult::answered(
                response.success,
                net_raw,
                avg_price_raw,
                latency_ms,
                response.order_id.as_str(),
            )
        },
        _ => PolymarketOrderResult::with_error_after(POLYMARKET_ERR_ORDER_FAILED, latency_ms),
    }
}

/// Second step of a limit buy. On an answer the record carries what the
/// taker side received so far and the requested price, not a realized
/// average; no fee is taken off. On a failure or timeout, `ORDER_FAILED`
/// with the latency.
pub fn complete_limit_buy(
    request: &OrderRequest,
    outcome: Outcome<OrderResponse>,
    latency_ms: u64,
) -> (r: PolymarketOrderResult)
    ensures
        match outcome {
            Outcome::Completed(response) => r.reports(
                response.success,
                held_raw(response.taking_amount@),
                held_raw(request.price@),
                latency_ms,
                response.order_id@,
            ),
            _ => r == PolymarketOrderResult::failed_after(POLYMARKET_ERR_ORDER_FAILED, latency_ms),
        },
{
    match outcome {
        Outcome::Completed(response) => PolymarketOrderResult::answered(
            response.success,
            decimal_to_raw(response.taking_amount),
            decimal_to_raw(request.price),
            latency_ms,
            response.order_id.as_str(),
        ),
        _ => PolymarketOrderResult::with_error_after(POLYMARKET_ERR_ORDER_FAILED, latency_ms),
    }
}

/// Second step of a limit sell. On an answer the record carries the shares
/// that the maker side gave so far and the requested price. On a failure or
/// timeout, `ORDER_FAILED` with the latency.
pub fn complete_limit_sell(
    request: &OrderRequest,
    outcome: Outcome<OrderResponse>,
    latency_ms: u64,
) -> (r: PolymarketOrderResult)
    ensures
        match outcome {
            Outcome::Completed(response) => r.reports(
                response.success,
                held_raw(response.making_amount@),
                held_raw(request.price@),
                latency_ms,
                response.order_id@,
            ),
            _ => r == PolymarketOrderResult::failed_after(POLYMARKET_ERR_ORDER_FAILED, latency_ms),
        },
{
    match outcome {
        Outcome::Completed(response) => PolymarketOrderResult::answered(
            response.success,
            decimal_to_raw(response.making_amount),
            decimal_to_raw(request.price),
            latency_ms,
            response.order_id.as_str(),
        ),
        _ => PolymarketOrderResult::with_error_after(POLYMARKET_ERR_ORDER_FAILED, latency_ms),
    }
}

/// The record of a market sell that the exchange answered, given the average
/// price as a decimal: the shares sold and the average in raw units, zero
/// where there is no average. No fee is taken off.
pub fn market_sell_record(
    response: &OrderResponse,
    average: Option<DecimalValue>,
    latency_ms: u64,
) -> (r: PolymarketOrderResult)
    ensures
        r.reports(
            response.success,
            held_raw(response.making_amount@),
            sell_average_raw(number_of(average)),
            latency_ms,
            response.order_id@,
        ),
{
    let avg_price_raw = match average {
        Some(average) => decimal_to_raw(average),
        None => 0,
    };
    PolymarketOrderResult::answered(
        response.success,
        decimal_to_raw(response.making_amount),
        avg_price_raw,
        latency_ms,
        response.order_id.as_str(),
    )
}

/// Second step of a market sell. On an answer the record carries the shares
/// sold and the average price, currency received over shares sold. On a
/// failure or timeout, `ORDER_FAILED` with the latency.
pub fn complete_market_sell(outcome: Outcome<OrderResponse>, latency_ms: u64) -> (r:
    PolymarketOrderResult)
    ensures
        match outcome {
            Outcome::Completed(response) => r.reports(
                response.success,
                held_raw(response.making_amount@),
                sell_average_raw(market_sell_quotient(response)),
                latency_ms,
                response.order_id@,
            ),
            _ => r == PolymarketOrderResult::failed_after(POLYMARKET_ERR_ORDER_FAILED, latency_ms),
        },
{
    match outcome {
        Outcome::Completed(response) => {
            let average = if response.making_amount.is_zero() {
                Some(DecimalValue::zero())
            } else {
                response.taking_amount.checked_div(&response.making_amount)
            };
            market_sell_record(&response, average, latency_ms)
        },
        _ => PolymarketOrderResult::with_error_after(POLYMARKET_ERR_ORDER_FAILED, latency_ms),
    }
}

} // verus!
