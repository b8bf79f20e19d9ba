//! Match-level vocabulary shared by the rules and the hand state.

use vstd::prelude::*;

use crate::tile::Tile;

verus! {

/// Kinds of abortive (no-score) draws.
#[derive(Debug, Clone, Copy, PartialEq, Eq, Structural)]
pub enum AbortiveDrawKind {
    NineTerminals,
    FourWinds,
    FourKongs,
    FourRiichis,
}

/// The moment at which an abortive draw is checked.
#[derive(Debug, Clone, Copy, PartialEq, Eq, Structural)]
pub enum AbortiveTrigger {
    DealerFirstTurn,
    FirstDiscard { seat: usize, tile: Tile },
    KanDeclared,
    RiichiDeclared,
}

/// Prevailing round wind.
#[derive(Debug, Clone, Copy, PartialEq, Eq, Structural)]
pub enum RoundWind {
    East,
    South,
}

/// How many rounds a match lasts.
#[derive(Debug, Clone, Copy, PartialEq, Eq, Structural)]
pub enum MatchLength {
    EastOnly,
    Hanchan,
}

/// How a hand ended, as the match flow sees it.
#[derive(Debug, Clone, PartialEq, Eq)]
pub enum HandOutcome {
    Win { winners: Vec<usize> },
    ExhaustiveDraw,
    AbortiveDraw(AbortiveDrawKind),
}

} // verus!
