//! The shape of every operation: a first step that either settles the call
//! or names the exchange call to make, and the outcome of that call, which a
//! second step turns into what the host receives.

use vstd::prelude::*;

verus! {

/// Seconds that any one exchange interaction may take.
pub const API_TIMEOUT_SECS: u64 = 10;

/// What the first step of an operation decides.
#[derive(Debug, PartialEq, Eq)]
pub enum Step<R, C> {
    /// The call is settled: hand `R` to the host, make no exchange call.
    Done(R),
    /// Make the exchange call `C` under the shared timeout, then complete.
    Call(C),
}

/// How an exchange call ended.
#[derive(Debug, PartialEq, Eq)]
pub enum Outcome<T> {
    /// The exchange answered in time.
    Completed(T),
    /// Building, signing, sending or reading the answer failed.
    Failed,
    /// The shared timeout ran out first; what the exchange did is unknown.
    TimedOut,
}

} // verus!
