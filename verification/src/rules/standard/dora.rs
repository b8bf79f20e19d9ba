//! Dora: the tile each indicator points at, and the dora a winning hand holds.

use vstd::prelude::*;
use vstd::multiset::Multiset;

use crate::rules::RulesConfig;
use crate::rules::context::WinContext;
use crate::tile::{
    Dragon, Suit, Tile, TileKind, Wind, dragon_index, numbered_tile, tile_identity, wind_index,
};

use super::patterns::ctx_ok;
use super::win::{all_tiles_in_hand, full_hand, lemma_full_hand_len};

verus! {

broadcast use vstd::seq_lib::group_to_multiset_ensures;

/// The dora an indicator points at: the next rank (9 wraps to 1), the next wind
/// (E→S→W→N→E), or the next dragon (white→green→red→white).
pub open spec fn dora_of(indicator: Tile) -> Tile {
    match indicator.kind {
        TileKind::Man(r) => Tile { kind: TileKind::Man(if r == 9 { 1 } else { ((r + 1) % 256) as u8 }), red: false },
        TileKind::Pin(r) => Tile { kind: TileKind::Pin(if r == 9 { 1 } else { ((r + 1) % 256) as u8 }), red: false },
        TileKind::Sou(r) => Tile { kind: TileKind::Sou(if r == 9 { 1 } else { ((r + 1) % 256) as u8 }), red: false },
        TileKind::Wind(w) => Tile {
            kind: TileKind::Wind(
                match w {
                    Wind::East => Wind::South,
                    Wind::South => Wind::West,
                    Wind::West => Wind::North,
                    Wind::North => Wind::East,
                },
            ),
            red: false,
        },
        TileKind::Dragon(d) => Tile {
            kind: TileKind::Dragon(
                match d {
                    Dragon::White => Dragon::Green,
                    Dragon::Green => Dragon::Red,
                    Dragon::Red => Dragon::White,
                },
            ),
            red: false,
        },
    }
}

/// The dora is the face after the indicator's, never a red five: within a suit the next rank
/// (9 wraps to 1); among the winds the next in East→South→West→North→East order; among the
/// dragons the next in white→green→red→white order.
pub proof fn lemma_dora_is_next_face(indicator: Tile)
    ensures
        !dora_of(indicator).red,
        indicator.kind matches TileKind::Man(r) ==> (1 <= r <= 9 ==> dora_of(indicator).kind
            == TileKind::Man((r % 9 + 1) as u8)),
        indicator.kind matches TileKind::Pin(r) ==> (1 <= r <= 9 ==> dora_of(indicator).kind
            == TileKind::Pin((r % 9 + 1) as u8)),
        indicator.kind matches TileKind::Sou(r) ==> (1 <= r <= 9 ==> dora_of(indicator).kind
            == TileKind::Sou((r % 9 + 1) as u8)),
        indicator.kind matches TileKind::Wind(w) ==> (dora_of(indicator).kind matches TileKind::Wind(d)
            && wind_index(d) == (wind_index(w) + 1) % 4),
        indicator.kind matches TileKind::Dragon(g) ==> (dora_of(indicator).kind matches TileKind::Dragon(d)
            && dragon_index(d) == (dragon_index(g) + 1) % 3),
        indicator.kind == TileKind::Wind(Wind::East) ==> dora_of(indicator).kind == TileKind::Wind(
            Wind::South,
        ),
{
}

/// On the four winds the dora map is a permutation: two wind indicators with the same dora
/// show the same wind.
pub proof fn lemma_wind_dora_injective(a: Tile, b: Tile)
    requires
        a.kind is Wind,
        b.kind is Wind,
        dora_of(a).kind == dora_of(b).kind,
    ensures
        a.kind == b.kind,
{
}

/// The dora the indicator points at (always some tile).
pub fn dora_tile(indicator: Tile) -> (t: Option<Tile>)
    ensures
        t == Some(dora_of(indicator)),
{
    let next = |r: u8| -> (n: u8)
        ensures
            n == (if r == 9 { 1 } else { ((r + 1) % 256) as u8 }),
        { if r == 9 { 1 } else { r.wrapping_add(1) } };
    let kind = match indicator.kind {
        TileKind::Man(r) => TileKind::Man(next(r)),
        TileKind::Pin(r) => TileKind::Pin(next(r)),
        TileKind::Sou(r) => TileKind::Sou(next(r)),
        TileKind::Wind(w) => TileKind::Wind(
            match w {
                Wind::East => Wind::South,
                Wind::South => Wind::West,
                Wind::West => Wind::North,
                Wind::North => Wind::East,
            },
        ),
        TileKind::Dragon(d) => TileKind::Dragon(
            match d {
                Dragon::White => Dragon::Green,
                Dragon::Green => Dragon::Red,
                Dragon::Red => Dragon::White,
            },
        ),
    };
    Some(Tile { kind, red: false })
}

/// Tiles of `m` showing the face of `t` (red fives count as fives).
pub open spec fn face_count(m: Multiset<Tile>, t: Tile) -> nat {
    m.count(Tile { kind: t.kind, red: false }) + m.count(Tile { kind: t.kind, red: true })
}

/// Dora held for the first `n` indicators.
pub open spec fn dora_hits(m: Multiset<Tile>, indicators: Seq<Tile>, n: int) -> nat
    decreases n,
{
    if n <= 0 {
        0
    } else {
        dora_hits(m, indicators, n - 1) + face_count(m, dora_of(indicators[n - 1]))
    }
}

/// Red tiles in `m`: the red five of each suit.
pub open spec fn red_count(m: Multiset<Tile>) -> nat {
    m.count(Tile { kind: TileKind::Man(5), red: true }) + m.count(Tile { kind: TileKind::Pin(5), red: true })
        + m.count(Tile { kind: TileKind::Sou(5), red: true })
}

fn face_count_exec(tiles: &Vec<Tile>, t: Tile) -> (n: usize)
    ensures
        n == face_count(tiles@.to_multiset(), t),
        n <= tiles@.len(),
{
    let mut n: usize = 0;
    let mut i: usize = 0;
    while i < tiles.len()
        invariant
            i <= tiles@.len(),
            n == face_count(tiles@.take(i as int).to_multiset(), t),
            n <= i,
        decreases tiles@.len() - i,
    {
        proof {
            assert(tiles@.take(i + 1) =~= tiles@.take(i as int).push(tiles@[i as int]));
        }
        if tiles[i].kind == t.kind {
            n = n + 1;
        }
        i = i + 1;
    }
    proof {
        assert(tiles@.take(tiles@.len() as int) =~= tiles@);
    }
    n
}

fn count_matching(tiles: &Vec<Tile>, indicators: &Vec<Tile>) -> (n: u8)
    requires
        tiles@.len() <= 32,
        indicators@.len() <= 7,
    ensures
        n == dora_hits(tiles@.to_multiset(), indicators@, indicators@.len() as int),
{
    let mut n: u8 = 0;
    let mut i: usize = 0;
    while i < indicators.len()
        invariant
            i <= indicators@.len(),
            tiles@.len() <= 32,
            indicators@.len() <= 7,
            n == dora_hits(tiles@.to_multiset(), indicators@, i as int),
            n <= 32 * i,
        decreases indicators@.len() - i,
    {
        let d = match dora_tile(indicators[i]) {
            Some(d) => d,
            None => indicators[i],
        };
        let c = face_count_exec(tiles, d);
        n = n + c as u8;
        i = i + 1;
    }
    n
}

/// Dora a hand holds against the first `k + 1` indicators of the dead wall (at even positions,
/// or odd ones for ura dora).
pub open spec fn indicators_of(dead: Seq<Tile>, kans: nat, offset: int) -> Seq<Tile> {
    Seq::new(kans + 1, |i: int| dead[2 * i + offset])
}

/// Dora among the winning hand's tiles, one per tile per indicator.
pub fn count_dora(ctx: &WinContext, config: &RulesConfig) -> (n: u8)
    requires
        ctx_ok(ctx),
    ensures
        n == dora_hits(
            full_hand(*ctx.hand, ctx.win_tile, ctx.win_type),
            indicators_of(ctx.state.wall.dead_seq(), ctx.state.wall.kans() as nat, 0),
            ctx.state.wall.kans() + 1,
        ),
{
    let indicators = ctx.state.wall.dora_indicators();
    let tiles = all_tiles_in_hand(ctx.hand, ctx.win_tile, ctx.win_type);
    proof {
        lemma_full_hand_len(*ctx.hand, ctx.win_tile, ctx.win_type);
        assert(indicators@ =~= indicators_of(ctx.state.wall.dead_seq(), ctx.state.wall.kans() as nat, 0));
        assert(ctx.state.wall.kans() <= 6);
    }
    count_matching(&tiles, &indicators)
}

/// Ura dora, counted only for a riichi winner.
pub fn count_ura_dora(ctx: &WinContext, config: &RulesConfig) -> (n: u8)
    requires
        ctx_ok(ctx),
    ensures
        n == if ctx.state.riichi@[ctx.winner as int] {
            dora_hits(
                full_hand(*ctx.hand, ctx.win_tile, ctx.win_type),
                indicators_of(ctx.state.wall.dead_seq(), ctx.state.wall.kans() as nat, 1),
                ctx.state.wall.kans() + 1,
            )
        } else {
            0
        },
{
    if !ctx.is_riichi() {
        return 0;
    }
    let indicators = ctx.state.wall.ura_dora_indicators();
    let tiles = all_tiles_in_hand(ctx.hand, ctx.win_tile, ctx.win_type);
    proof {
        lemma_full_hand_len(*ctx.hand, ctx.win_tile, ctx.win_type);
        assert(indicators@ =~= indicators_of(ctx.state.wall.dead_seq(), ctx.state.wall.kans() as nat, 1));
        assert(ctx.state.wall.kans() <= 6);
    }
    count_matching(&tiles, &indicators)
}

/// Red fives in the winning hand, when the rules use them.
pub fn count_aka_dora(ctx: &WinContext, config: &RulesConfig) -> (n: u8)
    requires
        ctx_ok(ctx),
    ensures
        n == if config.aka_dora { red_count(full_hand(*ctx.hand, ctx.win_tile, ctx.win_type)) } else { 0 },
{
    if !config.aka_dora {
        return 0;
    }
    let tiles = all_tiles_in_hand(ctx.hand, ctx.win_tile, ctx.win_type);
    let ghost m = tiles@.to_multiset();
    proof {
        lemma_full_hand_len(*ctx.hand, ctx.win_tile, ctx.win_type);
    }
    let mut n: u8 = 0;
    let mut i: usize = 0;
    while i < tiles.len()
        invariant
            i <= tiles@.len(),
            tiles@.len() <= 32,
            n == tiles@.take(i as int).to_multiset().count(Tile { kind: TileKind::Man(5), red: true })
                + tiles@.take(i as int).to_multiset().count(Tile { kind: TileKind::Pin(5), red: true })
                + tiles@.take(i as int).to_multiset().count(Tile { kind: TileKind::Sou(5), red: true }),
            n <= i,
        decreases tiles@.len() - i,
    {
        proof {
            assert(tiles@.take(i + 1) =~= tiles@.take(i as int).push(tiles@[i as int]));
        }
        let t = tiles[i];
        if t.red && (t.kind == TileKind::Man(5) || t.kind == TileKind::Pin(5) || t.kind == TileKind::Sou(5)) {
            n = n + 1;
        }
        i = i + 1;
    }
    proof {
        assert(tiles@.take(tiles@.len() as int) =~= tiles@);
    }
    n
}

} // verus!
