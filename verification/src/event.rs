//! Events emitted by a hand in progress (and replayed by [`crate::state::HandState::apply_event`]).

use vstd::prelude::*;

use crate::game::AbortiveDrawKind;
use crate::hand::MeldKind;
use crate::tile::Tile;

verus! {

#[derive(Debug, Clone, PartialEq, Eq)]
pub enum Event {
    Dealt { dealer: usize },
    HandStarted { dealer: usize },
    Drawn { seat: usize, tile: Tile },
    Discarded { seat: usize, tile: Tile },
    RiichiDeclared { seat: usize, discard: Tile },
    Called { seat: usize, from: usize, meld: MeldKind, tiles: Vec<Tile> },
    DoraRevealed { tile: Tile },
    RinshanDrawn { seat: usize, tile: Tile },
    KakanDeclared { seat: usize, meld_index: usize, tile: Tile },
    Won { seat: usize, han: u8, fu: u8 },
    ScoresAdjusted { deltas: [i32; 4] },
    ExhaustiveDraw { deltas: [i32; 4] },
    AbortiveDraw { kind: AbortiveDrawKind },
    GameEnded { scores: [i32; 4] },
}

} // verus!
