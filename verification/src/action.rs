//! Player actions submitted to a hand in progress.

use vstd::prelude::*;

use crate::tile::Tile;

verus! {

/// Which kan a player declares.
#[derive(Debug, Clone, Copy, PartialEq, Eq, Structural)]
pub enum KanIntent {
    /// Called on another player's discard with three matching concealed tiles.
    Open,
    /// Four matching concealed tiles on one's own turn.
    Closed { tile: Tile },
    /// Upgrading the open pon at `meld_index` with the fourth tile (kakan).
    Added { meld_index: usize },
}

/// Everything a seat can submit to [`crate::state::HandState::apply`].
#[derive(Debug, Clone, Copy, PartialEq, Eq)]
pub enum Action {
    Draw,
    Discard(Tile),
    Riichi { discard: Tile },
    Tsumo,
    Ron,
    Pass,
    Chi { tiles: [Tile; 3] },
    Pon,
    Kan(KanIntent),
    AbortiveNineTerminals,
}

} // verus!
