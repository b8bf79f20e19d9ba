//! Display order of tiles and an insertion sort that keeps the tile multiset.

use vstd::prelude::*;

use super::kind::{kind_key, lemma_kind_key_injective};
use super::Tile;

verus! {

broadcast use vstd::seq_lib::group_to_multiset_ensures;

/// Sort key of a tile: its kind's key, then normal before red.
pub open spec fn tile_key(t: Tile) -> nat {
    kind_key(t.kind) * 2 + if t.red { 1nat } else { 0nat }
}

/// Tiles in non-decreasing display order.
pub open spec fn sorted(s: Seq<Tile>) -> bool {
    forall|i: int, j: int| 0 <= i <= j < s.len() ==> tile_key(s[i]) <= tile_key(s[j])
}

/// Distinct tiles have distinct keys, so the display order is total.
pub proof fn lemma_tile_key_injective(a: Tile, b: Tile)
    ensures
        tile_key(a) == tile_key(b) <==> a == b,
{
    lemma_kind_key_injective(a.kind, b.kind);
}

/// Sorts tiles in place into display order, keeping the same tiles.
pub fn sort_tiles(v: &mut Vec<Tile>)
    ensures
        sorted(final(v)@),
        final(v)@.to_multiset() == old(v)@.to_multiset(),
        final(v)@.len() == old(v)@.len(),
{
    let n = v.len();
    let mut out: Vec<Tile> = Vec::new();
    let mut i: usize = 0;
    while i < n
        invariant
            n == v@.len(),
            i <= n,
            sorted(out@),
            out@.to_multiset() == v@.take(i as int).to_multiset(),
            out@.len() == i,
        decreases n - i,
    {
        let x = v[i];
        let k = x.key();
        let mut pos: usize = 0;
        while pos < out.len() && out[pos].key() <= k
            invariant
                pos <= out@.len(),
                forall|j: int| 0 <= j < pos ==> tile_key(out@[j]) <= k,
            decreases out@.len() - pos,
        {
            pos = pos + 1;
        }
        let ghost before = out@;
        out.insert(pos, x);
        proof {
            assert(forall|j: int| pos <= j < before.len() ==> tile_key(before[j]) > k) by {
                assert forall|j: int| pos <= j < before.len() implies tile_key(before[j]) > k by {
                    if pos < before.len() {
                        assert(tile_key(before[pos as int]) > k);
                        assert(tile_key(before[pos as int]) <= tile_key(before[j]));
                    }
                }
            }
            assert(v@.take(i + 1) =~= v@.take(i as int).push(x));
        }
        i = i + 1;
    }
    proof {
        assert(v@.take(n as int) =~= v@);
    }
    *v = out;
}

} // verus!
