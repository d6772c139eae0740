//! Session state: the single slot that holds the trading session of the
//! process, and the decisions of `init`, `warmup` and `shutdown`.
//!
//! The session itself (client handle, signing identity, execution engine and
//! the guarded cache) is the caller's value `S`. The slot is either empty or
//! holds one whole session; nothing in between can be observed.

use crate::codes::ErrorCode;
use crate::identity::{is_signing_key, is_wallet_address, signing_key_parses, wallet_address_parses};
use crate::protocol::{Outcome, Step};
use vstd::prelude::*;

verus! {

/// Round trips that a warmup makes to open the transport connections.
pub const WARMUP_ROUND_TRIPS: u32 = 3;

/// The one place where the session of the process lives.
pub struct SessionSlot<S> {
    session: Option<S>,
}

impl<S> View for SessionSlot<S> {
    type V = Option<S>;

    closed spec fn view(&self) -> Option<S> {
        self.session
    }
}

/// What `init` decides before any exchange interaction.
#[derive(Clone, Copy, Debug, PartialEq, Eq)]
pub enum InitStep {
    /// Settled with this code.
    Done(ErrorCode),
    /// Build the engine, authenticate with the key and the wallet, then
    /// complete.
    Authenticate,
}

/// Why establishing a session failed.
#[derive(Clone, Copy, Debug, PartialEq, Eq)]
pub enum InitFailure {
    /// The execution engine could not be created.
    Engine,
    /// The identity was refused as a signing key.
    Identity,
    /// The wallet address was refused.
    Address,
    /// The client could not be built or the exchange refused the handshake.
    Handshake,
}

/// The warmup that the caller is asked to run.
#[derive(Clone, Copy, Debug, PartialEq, Eq)]
pub struct Warmup {
    pub round_trips: u32,
}

/// What `init` decides from what is known of the slot and of the two texts.
/// For a text, `None` says that it is missing and `Some(valid)` whether it
/// was accepted. An unreachable slot is an authentication failure; an
/// existing session makes the call a success without effect; then a missing
/// key, a missing wallet, a refused key and a refused wallet are reported,
/// in this order.
pub open spec fn init_verdict(
    reachable: bool,
    initialized: bool,
    key: Option<bool>,
    wallet: Option<bool>,
) -> InitStep {
    if !reachable {
        InitStep::Done(ErrorCode::AuthFailed)
    } else if initialized {
        InitStep::Done(ErrorCode::Success)
    } else if key is None {
        InitStep::Done(ErrorCode::InvalidPk)
    } else if wallet is None {
        InitStep::Done(ErrorCode::AuthFailed)
    } else if !key->0 {
        InitStep::Done(ErrorCode::InvalidPk)
    } else if !wallet->0 {
        InitStep::Done(ErrorCode::AuthFailed)
    } else {
        InitStep::Authenticate
    }
}

/// Whether a text that may be missing is a signing key.
pub open spec fn key_validity(text: Option<&str>) -> Option<bool> {
    match text {
        Some(s) => Some(is_signing_key(s@)),
        None => None,
    }
}

/// Whether a text that may be missing is a wallet address.
pub open spec fn wallet_validity(text: Option<&str>) -> Option<bool> {
    match text {
        Some(s) => Some(is_wallet_address(s@)),
        None => None,
    }
}

/// The code of a failed `init`: a refused identity is an invalid key,
/// anything else an authentication failure.
pub open spec fn init_failure_class(failure: InitFailure) -> ErrorCode {
    match failure {
        InitFailure::Identity => ErrorCode::InvalidPk,
        _ => ErrorCode::AuthFailed,
    }
}

/// The slot after `init` completes. A session that is there stays, whatever
/// the completing call brings: the slot never holds a second session in
/// place of the first. An empty slot takes the new session, and stays empty
/// on a failure.
pub open spec fn after_init<S>(before: Option<S>, outcome: Result<S, InitFailure>) -> Option<S> {
    match before {
        Some(_) => before,
        None => match outcome {
            Ok(session) => Some(session),
            Err(_) => None,
        },
    }
}

/// The code that a completed `init` returns on a slot without a session. A
/// session that cannot be installed, because the slot cannot be written, is
/// an authentication failure.
pub open spec fn init_result<S>(writable: bool, outcome: Result<S, InitFailure>) -> ErrorCode {
    match outcome {
        Ok(_) => if writable {
            ErrorCode::Success
        } else {
            ErrorCode::AuthFailed
        },
        Err(failure) => init_failure_class(failure),
    }
}

/// The slot after `shutdown`: empty, whatever it held.
pub open spec fn after_shutdown<S>(before: Option<S>) -> Option<S> {
    None
}

impl<S> SessionSlot<S> {
    /// An empty slot.
    pub fn new() -> (slot: SessionSlot<S>)
        ensures
            slot@ is None,
    {
        SessionSlot { session: None }
    }

    /// Whether a session exists.
    pub fn is_initialized(&self) -> (yes: bool)
        ensures
            yes == self@ is Some,
    {
        self.session.is_some()
    }
}

/// The session, for reading: `None` where the slot cannot be reached or is
/// empty.
pub fn get_executor<S>(slot: Option<&SessionSlot<S>>) -> (session: Option<&S>)
    ensures
        session is Some == (slot matches Some(s) && s@ is Some),
        session matches Some(found) ==> (slot matches Some(s) && s@ == Some(*found)),
{
    match slot {
        Some(s) => s.session.as_ref(),
        None => None,
    }
}

/// Maps the reason of a failed `init` to its code.
pub fn init_failure_code(failure: InitFailure) -> (code: ErrorCode)
    ensures
        code == init_failure_class(failure),
{
    match failure {
        InitFailure::Identity => ErrorCode::InvalidPk,
        _ => ErrorCode::AuthFailed,
    }
}

/// Decides `init` from what is known of the slot and of the two texts.
pub fn decide_init(
    reachable: bool,
    initialized: bool,
    key: Option<bool>,
    wallet: Option<bool>,
) -> (step: InitStep)
    ensures
        step == init_verdict(reachable, initialized, key, wallet),
{
    if !reachable {
        return InitStep::Done(ErrorCode::AuthFailed);
    }
    if initialized {
        return InitStep::Done(ErrorCode::Success);
    }
    match (key, wallet) {
        (None, _) => InitStep::Done(ErrorCode::InvalidPk),
        (Some(_), None) => InitStep::Done(ErrorCode::AuthFailed),
        (Some(false), Some(_)) => InitStep::Done(ErrorCode::InvalidPk),
        (Some(true), Some(false)) => InitStep::Done(ErrorCode::AuthFailed),
        (Some(true), Some(true)) => InitStep::Authenticate,
    }
}

/// First step of `init`. `slot` is `None` where the slot cannot be read; a
/// text is `None` where the host passed none or one that is not text. The
/// texts are looked at only where the slot is reachable and empty.
pub fn polymarket_init<S>(
    slot: Option<&SessionSlot<S>>,
    private_key: Option<&str>,
    funder_wallet: Option<&str>,
) -> (step: InitStep)
    ensures
        step == init_verdict(
            slot is Some,
            slot matches Some(s) && s@ is Some,
            key_validity(private_key),
            wallet_validity(funder_wallet),
        ),
{
    let reachable = slot.is_some();
    let initialized = match slot {
        Some(s) => s.is_initialized(),
        None => false,
    };
    if !reachable || initialized {
        return decide_init(reachable, initialized, None, None);
    }
    let key = match private_key {
        Some(text) => Some(signing_key_parses(text)),
        None => None,
    };
    let wallet = match funder_wallet {
        Some(text) => Some(wallet_address_parses(text)),
        None => None,
    };
    decide_init(reachable, initialized, key, wallet)
}

/// Second step of `init`. Where the slot holds a session by now, because
/// another call completed first, the call is a success without effect: the
/// session that is there stays, and what this call brings is dropped. Where
/// the slot is empty, the session that authentication gave is installed, or
/// the reason why there is none is reported and the slot stays empty. `slot`
/// is `None` where the slot cannot be written.
pub fn complete_init<S>(
    slot: Option<&mut SessionSlot<S>>,
    outcome: Result<S, InitFailure>,
) -> (code: ErrorCode)
    ensures
        slot matches Some(held) ==> final(held)@ == after_init(held@, outcome),
        (slot matches Some(held) && held@ is Some) ==> (slot matches Some(held) && final(held)@
            == held@ && code == ErrorCode::Success),
        (slot matches Some(held) && held@ is None) ==> (slot matches Some(held) && final(held)@
            == after_init(None, outcome) && code == init_result(true, outcome)),
        slot is None ==> code == init_result(false, outcome),
{
    match slot {
        Some(held) => {
            if held.session.is_some() {
                return ErrorCode::Success;
            }
            match outcome {
                Ok(session) => {
                    held.session = Some(session);
                    ErrorCode::Success
                },
                Err(failure) => init_failure_code(failure),
            }
        },
        None => match outcome {
            Ok(_) => ErrorCode::AuthFailed,
            Err(failure) => init_failure_code(failure),
        },
    }
}

/// Destroys the session if there is one; does nothing otherwise.
pub fn polymarket_shutdown<S>(slot: &mut SessionSlot<S>)
    ensures
        final(slot)@ == after_shutdown(old(slot)@),
        final(slot)@ is None,
{
    slot.session = None;
}

/// First step of `warmup`: without a session the call is refused, with one
/// the caller is asked for three round trips.
pub fn polymarket_warmup<S>(session: Option<&S>) -> (step: Step<ErrorCode, Warmup>)
    ensures
        step == match session {
            Some(_) => Step::Call(Warmup { round_trips: WARMUP_ROUND_TRIPS }),
            None => Step::Done(ErrorCode::NotInitialized),
        },
{
    match session {
        Some(_) => Step::Call(Warmup { round_trips: WARMUP_ROUND_TRIPS }),
        None => Step::Done(ErrorCode::NotInitialized),
    }
}

/// Second step of `warmup`: success if all round trips came back in time, an
/// authentication failure if any one failed or the timeout ran out.
pub fn complete_warmup(outcome: Outcome<()>) -> (code: ErrorCode)
    ensures
        code == match outcome {
            Outcome::Completed(_) => ErrorCode::Success,
            _ => ErrorCode::AuthFailed,
        },
{
    match outcome {
        Outcome::Completed(_) => ErrorCode::Success,
        _ => ErrorCode::AuthFailed,
    }
}

/// `init` is idempotent: once one call has installed a session, a second
/// call, whatever it is given, succeeds at its first step and asks for no
/// authentication; and a call that had passed its first step before, and
/// completes only now, leaves the slot with the session it has, whatever its
/// own authentication gave.
pub proof fn lemma_init_idempotent<S>(
    first: S,
    later: Result<S, InitFailure>,
    key: Option<bool>,
    wallet: Option<bool>,
)
    ensures
        init_result(true, Ok::<S, InitFailure>(first)) == ErrorCode::Success,
        after_init(None, Ok(first)) == Some(first),
        init_verdict(true, after_init(None, Ok(first)) is Some, key, wallet) == InitStep::Done(
            ErrorCode::Success,
        ),
        after_init(after_init(None, Ok(first)), later) == Some(first),
{
}

/// At most one session is ever installed between two shutdowns: however many
/// calls complete on a slot, it holds what the first successful one brought.
pub proof fn lemma_first_session_stays<S>(
    before: Option<S>,
    one: Result<S, InitFailure>,
    other: Result<S, InitFailure>,
)
    ensures
        before is Some ==> after_init(before, one) == before,
        after_init(before, one) is Some ==> after_init(after_init(before, one), other)
            == after_init(before, one),
{
}

/// `shutdown` then `init` re-establishes a session: whatever the slot held,
/// it is empty after `shutdown` and stays so under a second `shutdown`;
/// `init` on a valid key and wallet then asks for authentication, and once
/// that has given a session the slot holds exactly that one.
pub proof fn lemma_shutdown_then_init<S>(before: Option<S>, fresh: S)
    ensures
        after_shutdown(before) is None,
        after_shutdown(after_shutdown(before)) == after_shutdown(before),
        init_verdict(true, after_shutdown(before) is Some, Some(true), Some(true))
            == InitStep::Authenticate,
        after_init(after_shutdown(before), Ok(fresh)) == Some(fresh),
        init_result(true, Ok::<S, InitFailure>(fresh)) == ErrorCode::Success,
{
}

/// A failed `init` installs nothing, and on a slot without a session its
/// code is never success.
pub proof fn lemma_failed_init_keeps_slot<S>(
    before: Option<S>,
    writable: bool,
    failure: InitFailure,
)
    ensures
        after_init(before, Err(failure)) == before,
        init_result(writable, Err::<S, InitFailure>(failure)) != ErrorCode::Success,
{
}

} // verus!
