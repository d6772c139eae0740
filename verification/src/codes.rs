//! Error codes: a closed enumeration inside the crate, a stable integer at the
//! boundary with the host.

use vstd::prelude::*;

verus! {

/// The operation succeeded.
pub const POLYMARKET_OK: i32 = 0;

/// No session exists.
pub const POLYMARKET_ERR_NOT_INITIALIZED: i32 = -1;

/// The identity cannot be read as a signing key.
pub const POLYMARKET_ERR_INVALID_PK: i32 = -2;

/// The wallet address is malformed, the handshake failed, or the session is unusable.
pub const POLYMARKET_ERR_AUTH_FAILED: i32 = -3;

/// The token identifier is not in the exchange's numeric format.
pub const POLYMARKET_ERR_INVALID_TOKEN: i32 = -4;

/// An order could not be converted, built, signed or submitted in time.
pub const POLYMARKET_ERR_ORDER_FAILED: i32 = -5;

/// A cancellation was not confirmed in time.
pub const POLYMARKET_ERR_CANCEL_FAILED: i32 = -6;

/// A limit buy spends less than the fixed floor of one unit of currency.
pub const POLYMARKET_ERR_MIN_ORDER_SIZE: i32 = -7;

/// A limit buy asks for fewer shares than the market's minimum.
pub const POLYMARKET_ERR_MIN_SHARES: i32 = -8;

/// The outcome classes of every operation of the bridge.
#[derive(Clone, Copy, Debug, PartialEq, Eq, Structural)]
pub enum ErrorCode {
    Success,
    NotInitialized,
    InvalidPk,
    AuthFailed,
    InvalidToken,
    OrderFailed,
    CancelFailed,
    MinOrderSize,
    MinShares,
}

impl ErrorCode {
    /// The integer that stands for this code at the boundary.
    pub open spec fn number(self) -> int {
        match self {
            ErrorCode::Success => 0,
            ErrorCode::NotInitialized => -1,
            ErrorCode::InvalidPk => -2,
            ErrorCode::AuthFailed => -3,
            ErrorCode::InvalidToken => -4,
            ErrorCode::OrderFailed => -5,
            ErrorCode::CancelFailed => -6,
            ErrorCode::MinOrderSize => -7,
            ErrorCode::MinShares => -8,
        }
    }

    /// The code that an integer stands for, if it stands for one.
    pub open spec fn of_number(n: int) -> Option<ErrorCode> {
        if n == 0 {
            Some(ErrorCode::Success)
        } else if n == -1 {
            Some(ErrorCode::NotInitialized)
        } else if n == -2 {
            Some(ErrorCode::InvalidPk)
        } else if n == -3 {
            Some(ErrorCode::AuthFailed)
        } else if n == -4 {
            Some(ErrorCode::InvalidToken)
        } else if n == -5 {
            Some(ErrorCode::OrderFailed)
        } else if n == -6 {
            Some(ErrorCode::CancelFailed)
        } else if n == -7 {
            Some(ErrorCode::MinOrderSize)
        } else if n == -8 {
            Some(ErrorCode::MinShares)
        } else {
            None
        }
    }

    /// Maps the code to its stable integer.
    pub fn code(self) -> (n: i32)
        ensures
            n == self.number(),
            (n == POLYMARKET_OK) == (self == ErrorCode::Success),
    {
        match self {
            ErrorCode::Success => POLYMARKET_OK,
            ErrorCode::NotInitialized => POLYMARKET_ERR_NOT_INITIALIZED,
            ErrorCode::InvalidPk => POLYMARKET_ERR_INVALID_PK,
            ErrorCode::AuthFailed => POLYMARKET_ERR_AUTH_FAILED,
            ErrorCode::InvalidToken => POLYMARKET_ERR_INVALID_TOKEN,
            ErrorCode::OrderFailed => POLYMARKET_ERR_ORDER_FAILED,
            ErrorCode::CancelFailed => POLYMARKET_ERR_CANCEL_FAILED,
            ErrorCode::MinOrderSize => POLYMARKET_ERR_MIN_ORDER_SIZE,
            ErrorCode::MinShares => POLYMARKET_ERR_MIN_SHARES,
        }
    }

    /// Reads an integer of the boundary back into a code; `None` for an
    /// integer that no code maps to.
    pub fn from_code(n: i32) -> (code: Option<ErrorCode>)
        ensures
            code == ErrorCode::of_number(n as int),
    {
        if n == POLYMARKET_OK {
            Some(ErrorCode::Success)
        } else if n == POLYMARKET_ERR_NOT_INITIALIZED {
            Some(ErrorCode::NotInitialized)
        } else if n == POLYMARKET_ERR_INVALID_PK {
            Some(ErrorCode::InvalidPk)
        } else if n == POLYMARKET_ERR_AUTH_FAILED {
            Some(ErrorCode::AuthFailed)
        } else if n == POLYMARKET_ERR_INVALID_TOKEN {
            Some(ErrorCode::InvalidToken)
        } else if n == POLYMARKET_ERR_ORDER_FAILED {
            Some(ErrorCode::OrderFailed)
        } else if n == POLYMARKET_ERR_CANCEL_FAILED {
            Some(ErrorCode::CancelFailed)
        } else if n == POLYMARKET_ERR_MIN_ORDER_SIZE {
            Some(ErrorCode::MinOrderSize)
        } else if n == POLYMARKET_ERR_MIN_SHARES {
            Some(ErrorCode::MinShares)
        } else {
            None
        }
    }
}

/// Every code survives the trip through its integer, and two codes that share
/// an integer are the same code.
pub proof fn lemma_code_round_trip(a: ErrorCode, b: ErrorCode)
    ensures
        ErrorCode::of_number(a.number()) == Some(a),
        a.number() == b.number() ==> a == b,
        -8 <= a.number() <= 0,
{
}

/// An integer that reads back as a code is the integer of that code.
pub proof fn lemma_number_round_trip(n: int)
    ensures
        ErrorCode::of_number(n) matches Some(c) ==> c.number() == n,
        ErrorCode::of_number(n) is None <==> !(-8 <= n <= 0),
{
}

} // verus!
