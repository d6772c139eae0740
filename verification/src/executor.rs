//! Order executor: the first step of every operation that needs the session.
//!
//! A first step checks, in this order, that a session exists and that the
//! token text names a market, then hands the amounts to the rules of the
//! call. It ends in a code for the host or in the exchange call to make. It
//! changes nothing: a call that is refused has no effect.

use crate::cache::MinSizeCache;
use crate::codes::ErrorCode;
use crate::fixed_point::{decimal_to_raw, DecimalSpec, DecimalValue, RAW_PLACES, SHARE_PLACES};
use crate::orders::{
    held_raw, limit_buy_order, limit_buy_policy, limit_sell_order, market_buy_order,
    market_buy_price, market_sell_order, market_sell_price, number_of, OrderKind, OrderRequest,
    Side,
};
use crate::protocol::{Outcome, Step};
use crate::token::{names_token, token_number, TokenId};
use vstd::prelude::*;

verus! {

/// What a balance query returns where no balance can be given.
pub const BALANCE_UNAVAILABLE: i64 = -1;

/// Which balance is asked for.
#[derive(Clone, Copy, Debug, PartialEq, Eq)]
pub enum BalanceQuery {
    /// The currency that backs orders.
    Collateral,
    /// The shares held of one token.
    Conditional(TokenId),
}

/// The request to cancel every open order.
#[derive(Clone, Copy, Debug, PartialEq, Eq)]
pub struct CancelAll;

/// First step of an order call: the code that refuses it, which the host
/// receives in the record of `refused_order`, or the order to submit.
pub type OrderStep = Step<ErrorCode, OrderRequest>;

impl OrderRequest {
    /// The request is for the token that `text` names and carries the given
    /// side, kind, amount and price.
    pub open spec fn describes(
        self,
        text: Seq<char>,
        side: Side,
        kind: OrderKind,
        in_shares: bool,
        amount: DecimalSpec,
        price: DecimalSpec,
    ) -> bool {
        &&& token_number(text) == Some(self.token.value())
        &&& self.has_terms(side, kind, in_shares, amount, price)
    }
}

/// The minimum that a readable cache holds for a token text; `None` where the
/// cache cannot be read now or holds nothing for the text.
pub open spec fn cached_min(cache: Option<&MinSizeCache>, text: Seq<char>) -> Option<DecimalSpec> {
    match cache {
        Some(c) => if c@.contains_key(text) {
            Some(c@[text])
        } else {
            None
        },
        None => None,
    }
}

/// Checks that a session exists and that the token text names a market.
fn admit_token<S>(session: Option<&S>, token_id: Option<&str>) -> (r: Result<TokenId, ErrorCode>)
    ensures
        session is None ==> r == Err::<TokenId, ErrorCode>(ErrorCode::NotInitialized),
        session is Some && !names_token(token_id) ==> r == Err::<TokenId, ErrorCode>(
            ErrorCode::InvalidToken,
        ),
        session is Some && names_token(token_id) ==> (r matches Ok(t) && token_number(token_id->0@)
            == Some(t.value())),
{
    if session.is_none() {
        return Err(ErrorCode::NotInitialized);
    }
    match TokenId::parse_optional(token_id) {
        Some(token) => Ok(token),
        None => Err(ErrorCode::InvalidToken),
    }
}

/// The step that an order, or its refusal, amounts to.
fn step_of(order: Result<OrderRequest, ErrorCode>) -> (step: OrderStep)
    ensures
        step == match order {
            Ok(request) => OrderStep::Call(request),
            Err(code) => OrderStep::Done(code),
        },
{
    match order {
        Ok(request) => Step::Call(request),
        Err(code) => Step::Done(code),
    }
}

/// First step of a market buy: spend `usdc_amount`, floored to six decimals,
/// on the shares of `token_id`, at once or not at all. `usdc_amount` is
/// `None` where the host's number is no decimal.
pub fn polymarket_market_buy<S>(
    session: Option<&S>,
    token_id: Option<&str>,
    usdc_amount: Option<DecimalValue>,
) -> (step: OrderStep)
    ensures
        session is None ==> step == OrderStep::Done(ErrorCode::NotInitialized),
        session is Some && !names_token(token_id) ==> step == OrderStep::Done(
            ErrorCode::InvalidToken,
        ),
        session is Some && names_token(token_id) && usdc_amount is None ==> step
            == OrderStep::Done(ErrorCode::OrderFailed),
        session is Some && names_token(token_id) && usdc_amount is Some
            ==> (step matches Step::Call(request) && request.describes(
            token_id->0@,
            Side::Buy,
            OrderKind::FillAndKill,
            false,
            usdc_amount->0@.floor_at(RAW_PLACES as nat),
            market_buy_price(),
        )),
{
    match admit_token(session, token_id) {
        Ok(token) => step_of(market_buy_order(token, usdc_amount)),
        Err(code) => Step::Done(code),
    }
}

/// First step of a limit buy: validates the spend and the share count it
/// buys at `price`, then asks for a resting order for that count. `cache` is
/// `None` where the cache cannot be read without waiting; the minimum of the
/// market is then not checked, nor is it where the cache has no entry for
/// the token text.
pub fn polymarket_limit_buy<S>(
    session: Option<&S>,
    token_id: Option<&str>,
    price: Option<DecimalValue>,
    usdc_amount: Option<DecimalValue>,
    cache: Option<&MinSizeCache>,
) -> (step: OrderStep)
    ensures
        session is None ==> step == OrderStep::Done(ErrorCode::NotInitialized),
        session is Some && !names_token(token_id) ==> step == OrderStep::Done(
            ErrorCode::InvalidToken,
        ),
        session is Some && names_token(token_id) ==> match limit_buy_policy(
            number_of(usdc_amount),
            number_of(price),
            cached_min(cache, token_id->0@),
        ) {
            Ok(shares) => (step matches Step::Call(request) && request.describes(
                token_id->0@,
                Side::Buy,
                OrderKind::GoodTillCancelled,
                true,
                shares,
                price->0@,
            )),
            Err(code) => step == OrderStep::Done(code),
        },
{
    let token = match admit_token(session, token_id) {
        Ok(token) => token,
        Err(code) => return Step::Done(code),
    };
    let min_shares = match (cache, token_id) {
        (Some(cache), Some(text)) => cache.get(text),
        _ => None,
    };
    step_of(limit_buy_order(token, price, usdc_amount, min_shares))
}

/// First step of a limit sell: a resting order to sell `size` shares, floored
/// to two decimals, at `price`. No minimum is checked.
pub fn polymarket_limit_sell<S>(
    session: Option<&S>,
    token_id: Option<&str>,
    price: Option<DecimalValue>,
    size: Option<DecimalValue>,
) -> (step: OrderStep)
    ensures
        session is None ==> step == OrderStep::Done(ErrorCode::NotInitialized),
        session is Some && !names_token(token_id) ==> step == OrderStep::Done(
            ErrorCode::InvalidToken,
        ),
        session is Some && names_token(token_id) && (size is None || price is None) ==> step
            == OrderStep::Done(ErrorCode::OrderFailed),
        session is Some && names_token(token_id) && size is Some && price is Some
            ==> (step matches Step::Call(request) && request.describes(
            token_id->0@,
            Side::Sell,
            OrderKind::GoodTillCancelled,
            true,
            size->0@.floor_at(SHARE_PLACES as nat),
            price->0@,
        )),
{
    match admit_token(session, token_id) {
        Ok(token) => step_of(limit_sell_order(token, price, size)),
        Err(code) => Step::Done(code),
    }
}

/// First step of a market sell: sell `size` shares, floored to two decimals,
/// at once or not at all.
pub fn polymarket_market_sell<S>(
    session: Option<&S>,
    token_id: Option<&str>,
    size: Option<DecimalValue>,
) -> (step: OrderStep)
    ensures
        session is None ==> step == OrderStep::Done(ErrorCode::NotInitialized),
        session is Some && !names_token(token_id) ==> step == OrderStep::Done(
            ErrorCode::InvalidToken,
        ),
        session is Some && names_token(token_id) && size is None ==> step == OrderStep::Done(
            ErrorCode::OrderFailed,
        ),
        session is Some && names_token(token_id) && size is Some ==> (step matches Step::Call(
            request,
        ) && request.describes(
            token_id->0@,
            Side::Sell,
            OrderKind::FillAndKill,
            true,
            size->0@.floor_at(SHARE_PLACES as nat),
            market_sell_price(),
        )),
{
    match admit_token(session, token_id) {
        Ok(token) => step_of(market_sell_order(token, size)),
        Err(code) => Step::Done(code),
    }
}

/// First step of `cancel`: without a session the call is refused, without an
/// order identifier it fails, else the caller is asked to cancel that order.
pub fn polymarket_cancel<S>(session: Option<&S>, order_id: Option<&str>) -> (step: Step<
    ErrorCode,
    String,
>)
    ensures
        session is None ==> step == Step::<ErrorCode, String>::Done(ErrorCode::NotInitialized),
        session is Some && order_id is None ==> step == Step::<ErrorCode, String>::Done(
            ErrorCode::CancelFailed,
        ),
        session is Some && order_id is Some ==> (step matches Step::Call(id) && id@
            == order_id->0@),
{
    if session.is_none() {
        return Step::Done(ErrorCode::NotInitialized);
    }
    match order_id {
        Some(id) => Step::Call(id.to_owned()),
        None => Step::Done(ErrorCode::CancelFailed),
    }
}

/// First step of `cancel_all`.
pub fn polymarket_cancel_all<S>(session: Option<&S>) -> (step: Step<ErrorCode, CancelAll>)
    ensures
        step == match session {
            Some(_) => Step::<ErrorCode, CancelAll>::Call(CancelAll),
            None => Step::Done(ErrorCode::NotInitialized),
        },
{
    match session {
        Some(_) => Step::Call(CancelAll),
        None => Step::Done(ErrorCode::NotInitialized),
    }
}

/// Second step of `cancel` and of `cancel_all`: success if the exchange
/// confirmed in time; not found, failure and timeout all give
/// `CANCEL_FAILED`.
pub fn complete_cancel(outcome: Outcome<()>) -> (code: ErrorCode)
    ensures
        code == match outcome {
            Outcome::Completed(_) => ErrorCode::Success,
            _ => ErrorCode::CancelFailed,
        },
{
    match outcome {
        Outcome::Completed(_) => ErrorCode::Success,
        _ => ErrorCode::CancelFailed,
    }
}

/// First step of the currency balance query.
pub fn polymarket_get_balance<S>(session: Option<&S>) -> (step: Step<i64, BalanceQuery>)
    ensures
        step == match session {
            Some(_) => Step::<i64, BalanceQuery>::Call(BalanceQuery::Collateral),
            None => Step::Done(BALANCE_UNAVAILABLE),
        },
{
    match session {
        Some(_) => Step::Call(BalanceQuery::Collateral),
        None => Step::Done(BALANCE_UNAVAILABLE),
    }
}

/// First step of the share balance query for one token. This operation has
/// no error codes: a missing session and a text that names no token both
/// give the negative sentinel.
pub fn polymarket_get_token_balance<S>(session: Option<&S>, token_id: Option<&str>) -> (step: Step<
    i64,
    BalanceQuery,
>)
    ensures
        (session is None || !names_token(token_id)) ==> step == Step::<i64, BalanceQuery>::Done(
            BALANCE_UNAVAILABLE,
        ),
        session is Some && names_token(token_id) ==> (step matches Step::Call(
            BalanceQuery::Conditional(token),
        ) && token_number(token_id->0@) == Some(token.value())),
{
    match admit_token(session, token_id) {
        Ok(token) => Step::Call(BalanceQuery::Conditional(token)),
        Err(_) => Step::Done(BALANCE_UNAVAILABLE),
    }
}

/// Second step of a balance query: the balance in raw units, or the negative
/// sentinel on a failure or timeout.
pub fn complete_balance(outcome: Outcome<DecimalValue>) -> (raw: i64)
    ensures
        raw == match outcome {
            Outcome::Completed(balance) => held_raw(balance@),
            _ => BALANCE_UNAVAILABLE,
        },
{
    match outcome {
        Outcome::Completed(balance) => decimal_to_raw(balance),
        _ => BALANCE_UNAVAILABLE,
    }
}

/// First step of `prefetch`: with a session and a token that names a market,
/// the caller is asked to fetch the market's metadata (tick size, fee rate,
/// risk class, order book summary) within one timeout window.
pub fn polymarket_prefetch<S>(session: Option<&S>, token_id: Option<&str>) -> (step: Step<
    ErrorCode,
    TokenId,
>)
    ensures
        session is None ==> step == Step::<ErrorCode, TokenId>::Done(ErrorCode::NotInitialized),
        session is Some && !names_token(token_id) ==> step == Step::<ErrorCode, TokenId>::Done(
            ErrorCode::InvalidToken,
        ),
        session is Some && names_token(token_id) ==> (step matches Step::Call(token)
            && token_number(token_id->0@) == Some(token.value())),
{
    match admit_token(session, token_id) {
        Ok(token) => Step::Call(token),
        Err(code) => Step::Done(code),
    }
}

/// Second step of `prefetch`. On an answer the market's minimum order size is
/// stored under the token text, over what was stored before, and the call
/// succeeds; `cache` is `None` where the cache cannot be written, and the
/// call then succeeds without storing. On a failure or timeout the cache
/// stays as it is and the call gives `ORDER_FAILED`.
pub fn complete_prefetch(
    cache: Option<&mut MinSizeCache>,
    token_id: &str,
    outcome: Outcome<DecimalValue>,
) -> (code: ErrorCode)
    ensures
        code == match outcome {
            Outcome::Completed(_) => ErrorCode::Success,
            _ => ErrorCode::OrderFailed,
        },
        cache matches Some(stored) ==> final(stored)@ == match outcome {
            Outcome::Completed(min_size) => stored@.insert(token_id@, min_size@),
            _ => stored@,
        },
{
    match outcome {
        Outcome::Completed(min_size) => {
            if let Some(stored) = cache {
                stored.insert(token_id, min_size);
            }
            ErrorCode::Success
        },
        _ => ErrorCode::OrderFailed,
    }
}

} // verus!
