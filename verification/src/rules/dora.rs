//! Dora matching for clients: which tiles of a hand are dora (no scoring).

use vstd::prelude::*;

use crate::rules::standard::dora::dora_of;
use crate::tile::{Tile, tile_identity};

pub use crate::rules::standard::dora::dora_tile;

verus! {

/// `tile` shows the face some indicator points at.
pub open spec fn indicator_dora(tile: Tile, indicators: Seq<Tile>) -> bool {
    exists|i: int| 0 <= i < indicators.len() && tile_identity(tile) == tile_identity(dora_of(#[trigger] indicators[i]))
}

/// Whether `tile` matches the dora of any current indicator.
pub fn matches_indicator_dora(tile: Tile, indicators: &[Tile]) -> (b: bool)
    ensures
        b == indicator_dora(tile, indicators@),
{
    let mut i: usize = 0;
    while i < indicators.len()
        invariant
            i <= indicators@.len(),
            forall|k: int| 0 <= k < i ==> tile_identity(tile) != tile_identity(dora_of(#[trigger] indicators@[k])),
        decreases indicators@.len() - i,
    {
        match dora_tile(indicators[i]) {
            Some(d) => {
                if tile.matches_identity(d) {
                    return true;
                }
            },
            None => {},
        }
        i = i + 1;
    }
    false
}

/// Whether `tile` counts as aka dora: a red five, when the ruleset enables them.
pub fn is_aka_dora(tile: Tile, aka_enabled: bool) -> (b: bool)
    ensures
        b == (aka_enabled && tile.red),
{
    aka_enabled && tile.is_red()
}

/// Whether `tile` is indicator dora, or aka dora when enabled.
pub fn is_hand_dora(tile: Tile, indicators: &[Tile], aka_enabled: bool) -> (b: bool)
    ensures
        b == (indicator_dora(tile, indicators@) || (aka_enabled && tile.red)),
{
    matches_indicator_dora(tile, indicators) || is_aka_dora(tile, aka_enabled)
}

} // verus!
