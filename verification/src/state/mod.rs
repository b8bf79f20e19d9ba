//! A hand in progress: turn order, calls, reactions and the state machine.

pub mod calls;
pub mod hand_state;
pub mod reaction;
pub mod play;
pub mod wins;
pub mod claims;
pub mod turn;
pub mod legal;
pub mod ledger;
pub mod replay;

use vstd::prelude::*;

pub use calls::{CallKind, ChiPosition, ResolvedCall};
pub use hand_state::{HandEndReason, HandPhase, HandState, PendingCall, SEAT_COUNT};
pub use reaction::{ReactionKind, ReactionState, call_kind};

verus! {

/// The seat that plays after `seat`.
pub fn next_seat(seat: usize) -> (s: usize)
    requires
        seat < 4,
    ensures
        s == (seat + 1) % 4,
{
    (seat + 1) % 4
}

} // verus!
