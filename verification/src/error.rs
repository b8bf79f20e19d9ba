use vstd::prelude::*;

use crate::action::Action;
use crate::state::{CallKind, HandPhase};
use crate::tile::Tile;

verus! {

/// Every way an engine operation can be refused.
#[derive(Debug)]
#[allow(inconsistent_fields)]
pub enum Error {
    InvalidTileString(String),
    LiveWallExhausted,
    RinshanExhausted,
    DoraRevealExhausted,
    InvalidDeadWallSize { expected: usize, actual: usize },
    InvalidWallSize { actual: usize },
    InvalidSeat(usize),
    InvalidKanState { kan_count: u8, rinshan_taken: u8 },
    InvalidDealCounts { seat: usize, expected: usize, actual: usize },
    InvalidHandShape { concealed: usize, melds: usize },
    InvalidMeld { kind: crate::hand::MeldKind },
    TileNotInHand { tile: Tile },
    InvalidChiSequence { tiles: [Tile; 3] },
    InvalidCall { kind: CallKind, reason: &'static str },
    IllegalAction { action: Action, phase: HandPhase },
    WrongActor { expected: usize, actual: usize },
    WrongPhase { expected: HandPhase, actual: HandPhase },
    NotReactingSeat { seat: usize },
    AlreadyResponded { seat: usize },
    HandEnded,
    CannotWin,
    CannotDeclareRiichi,
    Furiten,
    ReplayMismatch { detail: &'static str },
    TileConservation { expected: usize, actual: usize },
    UnknownRulesProfile(String),
}

} // verus!
