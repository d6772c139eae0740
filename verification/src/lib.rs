//! Order-execution bridge for a prediction-market exchange.
//!
//! The crate holds the decisions of the bridge: exact fixed-point conversion
//! of amounts, validation of requests, the lifecycle of the single trading
//! session, the cache of minimum order sizes, and the encoding of results into
//! a fixed-size record. Talking to the exchange is left to the caller: every
//! operation is split into a first step that says which exchange call to
//! make, if any, and a second step that turns the outcome of that call into
//! the value handed to the host.
//!
//! - [`fixed_point`]: decimals, raw units, and the rounding rules of amounts.
//! - [`fees`]: average fill price and the taker fee of a market buy.
//! - [`token`]: token identifiers read from text.
//! - [`identity`]: the signing key and the wallet address that open a session.
//! - [`cache`]: the minimum order size of each market.
//! - [`session`]: the session slot, `init`, `warmup` and `shutdown`.
//! - [`orders`]: orders formed from validated amounts, and their results.
//! - [`executor`]: the first step of every operation that needs the session.
//! - [`order_result`]: the fixed-size record of an order call.
//! - [`codes`]: error codes.
//! - [`protocol`]: the two-step shape shared by all operations.

pub mod cache;
pub mod codes;
pub mod executor;
pub mod fees;
pub mod fixed_point;
pub mod identity;
pub mod order_result;
pub mod orders;
pub mod protocol;
pub mod session;
pub mod token;

pub use cache::MinSizeCache;
pub use codes::{
    ErrorCode, POLYMARKET_ERR_AUTH_FAILED, POLYMARKET_ERR_CANCEL_FAILED,
    POLYMARKET_ERR_INVALID_PK, POLYMARKET_ERR_INVALID_TOKEN, POLYMARKET_ERR_MIN_ORDER_SIZE,
    POLYMARKET_ERR_MIN_SHARES, POLYMARKET_ERR_NOT_INITIALIZED, POLYMARKET_ERR_ORDER_FAILED,
    POLYMARKET_OK,
};
pub use executor::{
    complete_balance, complete_cancel, complete_prefetch, polymarket_cancel,
    polymarket_cancel_all, polymarket_get_balance, polymarket_get_token_balance,
    polymarket_limit_buy, polymarket_limit_sell, polymarket_market_buy, polymarket_market_sell,
    polymarket_prefetch, BalanceQuery, CancelAll, OrderStep,
};
pub use fixed_point::{decimal_to_raw, raw_to_decimal, DecimalValue, DECIMAL_SCALE};
pub use order_result::PolymarketOrderResult;
pub use orders::{
    complete_limit_buy, complete_limit_sell, complete_market_buy, complete_market_sell,
    refused_order, OrderAmount, OrderKind, OrderRequest, OrderResponse, Side,
};
pub use protocol::{Outcome, Step, API_TIMEOUT_SECS};
pub use session::{
    complete_init, complete_warmup, decide_init, get_executor, polymarket_init,
    polymarket_shutdown, polymarket_warmup, InitFailure, InitStep, SessionSlot, Warmup,
};
pub use token::TokenId;
