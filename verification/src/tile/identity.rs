use vstd::prelude::*;

use super::kind::{Dragon, Suit, TileKind, Wind};
use super::Tile;

verus! {

/// Tile identity for calls (red fives match normal fives of the same suit).
#[derive(Debug, Clone, Copy, PartialEq, Eq, Hash, Structural)]
pub enum TileIdentity {
    Numbered { suit: Suit, rank: u8 },
    Wind(Wind),
    Dragon(Dragon),
}

pub open spec fn tile_identity(t: Tile) -> TileIdentity {
    match t.kind {
        TileKind::Man(r) => TileIdentity::Numbered { suit: Suit::Man, rank: r },
        TileKind::Pin(r) => TileIdentity::Numbered { suit: Suit::Pin, rank: r },
        TileKind::Sou(r) => TileIdentity::Numbered { suit: Suit::Sou, rank: r },
        TileKind::Wind(w) => TileIdentity::Wind(w),
        TileKind::Dragon(d) => TileIdentity::Dragon(d),
    }
}

impl Tile {
    pub fn identity(self) -> (id: TileIdentity)
        ensures
            id == tile_identity(self),
    {
        match self.kind {
            TileKind::Man(r) => TileIdentity::Numbered { suit: Suit::Man, rank: r },
            TileKind::Pin(r) => TileIdentity::Numbered { suit: Suit::Pin, rank: r },
            TileKind::Sou(r) => TileIdentity::Numbered { suit: Suit::Sou, rank: r },
            TileKind::Wind(w) => TileIdentity::Wind(w),
            TileKind::Dragon(d) => TileIdentity::Dragon(d),
        }
    }

    /// Same tile up to the red marking.
    pub fn matches_identity(self, other: Tile) -> (b: bool)
        ensures
            b == (tile_identity(self) == tile_identity(other)),
            b == (self.kind == other.kind),
    {
        self.kind == other.kind
    }
}

} // verus!
