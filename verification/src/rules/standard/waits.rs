//! Waits and fu read from the standard decompositions: pinfu and the fu of the cheapest
//! decomposition.

use vstd::prelude::*;
use vstd::multiset::Multiset;

use crate::hand::Hand;
use crate::rules::context::WinContext;
use crate::scoring::WinType;
use crate::tile::{Tile, TileKind, Wind, tile_identity, tile_rank};

use super::decomp::{SetTiles, splitting};
use super::patterns::{
    covered, ctx_ok, decompositions, split_of, wind_tile,
};
use super::shape::{is_run, is_triplet};
use super::win::{
    all_tiles_in_hand, full_hand, is_winning_hand, terminal_or_honor_kind, triplet_fu, winning_hand,
};

verus! {

broadcast use vstd::seq_lib::group_to_multiset_ensures;

/// The wind of `seat` when `dealer` is East.
pub open spec fn seat_wind_of(seat: int, dealer: int) -> Tile {
    let i = (seat + 4 - dealer) % 4;
    wind_tile(if i == 0 { Wind::East } else if i == 1 { Wind::South } else if i == 2 { Wind::West } else { Wind::North })
}

/// A pair that scores fu: the seat wind, the round wind (East) or a dragon.
pub open spec fn scoring_pair(t: Tile, seat_wind: Tile) -> bool {
    t == seat_wind || t == wind_tile(Wind::East) || t.kind is Dragon
}

/// The run `x` (ranks r, r+1, r+2) was completed on `win` from a two-sided wait: the winning
/// tile is one of its tiles and not the middle one, and the other two are not 1-2 or 8-9.
pub open spec fn ryanmen_win(x: SetTiles, win: Tile) -> bool {
    &&& (win == x.0 || win == x.1 || win == x.2)
    &&& tile_rank(win) is Some
    &&& tile_rank(x.0) is Some
    &&& {
        let w = tile_rank(win)->0 as int;
        let r = tile_rank(x.0)->0 as int;
        if w == r + 1 {
            false
        } else if w == r + 2 {
            w > 3
        } else {
            w < 7
        }
    }
}

/// Pinfu shape of one decomposition: a non-scoring pair, four runs, one of them won two-sided.
pub open spec fn pinfu_split(p: Tile, sets: Multiset<SetTiles>, win: Tile, seat_wind: Tile) -> bool {
    &&& !scoring_pair(p, seat_wind)
    &&& forall|x: SetTiles| #[trigger] sets.count(x) > 0 ==> is_run(x.0, x.1, x.2)
    &&& exists|x: SetTiles| #[trigger] sets.count(x) > 0 && ryanmen_win(x, win)
}

pub open spec fn pinfu_spec(ctx: &WinContext) -> bool {
    &&& ctx.hand.melds@.len() == 0
    &&& winning_hand(*ctx.hand, Some(ctx.win_tile))
    &&& full_hand(*ctx.hand, ctx.win_tile, ctx.win_type).len() == 14
    &&& exists|p: Tile, l: Seq<SetTiles>|
        #[trigger] split_of(*ctx.hand, ctx.win_tile, ctx.win_type, p, l) && pinfu_split(
            p,
            l.to_multiset(),
            ctx.win_tile,
            seat_wind_of(ctx.winner as int, ctx.state.dealer as int),
        )
}

fn is_ryanmen_win(x: SetTiles, win: Tile) -> (b: bool)
    ensures
        b == ryanmen_win(x, win),
{
    if !(win == x.0 || win == x.1 || win == x.2) {
        return false;
    }
    match (win.rank(), x.0.rank()) {
        (Some(w), Some(r)) => {
            if w as u16 == r as u16 + 1 {
                false
            } else if w as u16 == r as u16 + 2 {
                w > 3
            } else {
                w < 7
            }
        },
        _ => false,
    }
}

fn seat_wind_exec(seat: usize, dealer: usize) -> (t: Tile)
    requires
        seat < 4,
        dealer < 4,
    ensures
        t == seat_wind_of(seat as int, dealer as int),
{
    let i = (seat + 4 - dealer) % 4;
    Tile::wind(Wind::from_index(i))
}

fn pinfu_split_exec(p: Tile, sets: &Vec<SetTiles>, win: Tile, seat_wind: Tile) -> (b: bool)
    ensures
        b == pinfu_split(p, sets@.to_multiset(), win, seat_wind),
{
    let ghost ms = sets@.to_multiset();
    if p == seat_wind || p == Tile::wind(Wind::East) || matches!(p.kind, TileKind::Dragon(_)) {
        return false;
    }
    let mut i: usize = 0;
    let mut found = false;
    while i < sets.len()
        invariant
            i <= sets@.len(),
            ms == sets@.to_multiset(),
            forall|j: int| 0 <= j < i ==> is_run((#[trigger] sets@[j]).0, sets@[j].1, sets@[j].2),
            found == exists|j: int| 0 <= j < i && ryanmen_win(#[trigger] sets@[j], win),
        decreases sets@.len() - i,
    {
        let x = sets[i];
        let run = match (x.0.suit(), x.0.rank()) {
            (Some(s), Some(r)) => r <= 7 && x.1 == Tile::numbered(s, r + 1) && x.2 == Tile::numbered(s, r + 2),
            _ => false,
        };
        if !run {
            proof {
                assert(sets@.contains(x));
                assert(ms.count(x) > 0);
            }
            return false;
        }
        if is_ryanmen_win(x, win) {
            found = true;
        }
        i = i + 1;
    }
    proof {
        assert forall|x: SetTiles| #[trigger] ms.count(x) > 0 implies is_run(x.0, x.1, x.2) by {
            assert(sets@.contains(x));
        }
        if found {
            let j = choose|j: int| 0 <= j < sets@.len() && ryanmen_win(#[trigger] sets@[j], win);
            assert(sets@.contains(sets@[j]));
            assert(ms.count(sets@[j]) > 0);
        } else {
            assert forall|x: SetTiles| !(#[trigger] ms.count(x) > 0 && ryanmen_win(x, win)) by {
                if ms.count(x) > 0 {
                    assert(sets@.contains(x));
                }
            }
        }
    }
    found
}

/// Pinfu: closed, complete, a non-scoring pair and four runs, won on a two-sided wait.
pub fn is_pinfu_hand(ctx: &WinContext) -> (b: bool)
    requires
        ctx_ok(ctx),
    ensures
        b == pinfu_spec(ctx),
{
    if !ctx.is_menzen() || !is_winning_hand(ctx.hand, Some(ctx.win_tile)) {
        return false;
    }
    let tiles = all_tiles_in_hand(ctx.hand, ctx.win_tile, ctx.win_type);
    if tiles.len() != 14 {
        return false;
    }
    let seat_wind = seat_wind_exec(ctx.winner, ctx.state.dealer);
    assert(full_hand(*ctx.hand, ctx.win_tile, ctx.win_type).len() == 14);
    let ds = decompositions(ctx.hand, ctx.win_tile, ctx.win_type);
    let mut i: usize = 0;
    while i < ds.len()
        invariant
            i <= ds@.len(),
            ctx.hand.melds@.len() == 0,
            winning_hand(*ctx.hand, Some(ctx.win_tile)),
            full_hand(*ctx.hand, ctx.win_tile, ctx.win_type).len() == 14,
            seat_wind == seat_wind_of(ctx.winner as int, ctx.state.dealer as int),
            forall|q: int| 0 <= q < ds@.len() ==> split_of(*ctx.hand, ctx.win_tile, ctx.win_type, (#[trigger] ds@[q]).0, ds@[q].1@),
            forall|q: int| 0 <= q < i ==> !pinfu_split((#[trigger] ds@[q]).0, ds@[q].1@.to_multiset(), ctx.win_tile, seat_wind),
        decreases ds@.len() - i,
    {
        if pinfu_split_exec(ds[i].0, &ds[i].1, ctx.win_tile, seat_wind) {
            proof {
                assert(split_of(*ctx.hand, ctx.win_tile, ctx.win_type, ds@[i as int].0, ds@[i as int].1@));
            }
            return true;
        }
        i = i + 1;
    }
    proof {
        if exists|p: Tile, l: Seq<SetTiles>|
            #[trigger] split_of(*ctx.hand, ctx.win_tile, ctx.win_type, p, l) && pinfu_split(p, l.to_multiset(), ctx.win_tile, seat_wind) {
            let (p, l) = choose|p: Tile, l: Seq<SetTiles>|
                #[trigger] split_of(*ctx.hand, ctx.win_tile, ctx.win_type, p, l) && pinfu_split(p, l.to_multiset(), ctx.win_tile, seat_wind);
            assert(covered(ds@, p, l));
            let q = choose|q: int| 0 <= q < ds@.len() && (#[trigger] ds@[q]).0 == p && ds@[q].1@.to_multiset() == l.to_multiset();
            assert(!pinfu_split(ds@[q].0, ds@[q].1@.to_multiset(), ctx.win_tile, seat_wind));
        }
    }
    false
}

/// Concealed meld, pair, and wait fu of one decomposition.
#[derive(Debug, Clone, Copy, PartialEq, Eq, Structural)]
pub struct FuDecomposition {
    pub concealed_meld_fu: u8,
    pub pair_fu: u8,
    pub wait_fu: u8,
}

/// Fu of a concealed set: 4 for a closed simple triplet, 8 for a closed terminal or honor
/// triplet, none for a run.
pub open spec fn set_meld_fu(x: SetTiles) -> nat {
    if is_triplet(x.0, x.1, x.2) {
        if terminal_or_honor_kind(x.0.kind) { 8 } else { 4 }
    } else {
        0
    }
}

/// The set was completed on a wait worth 2 fu: a triplet of the winning face, or a run holding
/// the winning tile that was not a two-sided wait.
pub open spec fn set_wait_scores(x: SetTiles, win: Tile) -> bool {
    if is_triplet(x.0, x.1, x.2) {
        tile_identity(x.0) == tile_identity(win)
    } else {
        (win == x.0 || win == x.1 || win == x.2) && !ryanmen_win(x, win)
    }
}

pub open spec fn meld_fu_sum(l: Seq<SetTiles>) -> nat
    decreases l.len(),
{
    if l.len() == 0 {
        0
    } else {
        meld_fu_sum(l.drop_last()) + set_meld_fu(l.last())
    }
}

/// Fu of the decomposition with pair `p` and sets `l`.
pub open spec fn fu_of(p: Tile, l: Seq<SetTiles>, win: Tile, seat_wind: Tile) -> FuDecomposition {
    FuDecomposition {
        concealed_meld_fu: meld_fu_sum(l) as u8,
        pair_fu: if scoring_pair(p, seat_wind) { 2 } else { 0 },
        wait_fu: if tile_identity(p) == tile_identity(win) || exists|x: SetTiles|
            #[trigger] l.to_multiset().count(x) > 0 && set_wait_scores(x, win) {
            2
        } else {
            0
        },
    }
}

pub open spec fn fu_cost(d: FuDecomposition) -> int {
    d.concealed_meld_fu + d.wait_fu
}

proof fn lemma_meld_fu_remove(l: Seq<SetTiles>, j: int)
    requires
        0 <= j < l.len(),
    ensures
        meld_fu_sum(l) == meld_fu_sum(l.remove(j)) + set_meld_fu(l[j]),
    decreases l.len(),
{
    if j < l.len() - 1 {
        lemma_meld_fu_remove(l.drop_last(), j);
        assert(l.remove(j).drop_last() =~= l.drop_last().remove(j));
        assert(l.remove(j).last() == l.last());
    } else {
        assert(l.remove(j) =~= l.drop_last());
    }
}

proof fn lemma_meld_fu_perm(a: Seq<SetTiles>, b: Seq<SetTiles>)
    requires
        a.to_multiset() == b.to_multiset(),
    ensures
        meld_fu_sum(a) == meld_fu_sum(b),
    decreases a.len(),
{
    if a.len() == 0 {
        assert(b.len() == 0) by {
            assert(b.to_multiset().len() == 0);
        }
    } else {
        let x = a.last();
        assert(a.contains(x));
        assert(b.to_multiset().count(x) > 0);
        assert(b.contains(x));
        let j = choose|j: int| 0 <= j < b.len() && b[j] == x;
        lemma_meld_fu_remove(b, j);
        assert(a.drop_last() =~= a.remove(a.len() - 1));
        assert(a.drop_last().to_multiset() =~= b.remove(j).to_multiset());
        lemma_meld_fu_perm(a.drop_last(), b.remove(j));
    }
}

proof fn lemma_meld_fu_bound(l: Seq<SetTiles>)
    ensures
        meld_fu_sum(l) <= 8 * l.len(),
    decreases l.len(),
{
    if l.len() > 0 {
        lemma_meld_fu_bound(l.drop_last());
    }
}

fn fu_of_exec(p: Tile, sets: &Vec<SetTiles>, win: Tile, seat_wind: Tile) -> (d: FuDecomposition)
    requires
        sets@.len() <= 4,
    ensures
        d == fu_of(p, sets@, win, seat_wind),
{
    let ghost ms = sets@.to_multiset();
    let mut meld: u8 = 0;
    let mut waits = false;
    let mut i: usize = 0;
    while i < sets.len()
        invariant
            i <= sets@.len(),
            sets@.len() <= 4,
            meld == meld_fu_sum(sets@.take(i as int)),
            waits == exists|j: int| 0 <= j < i && set_wait_scores(#[trigger] sets@[j], win),
        decreases sets@.len() - i,
    {
        proof {
            assert(sets@.take(i + 1).drop_last() =~= sets@.take(i as int));
            lemma_meld_fu_bound(sets@.take(i as int));
        }
        let x = sets[i];
        let trip = x.0 == x.1 && x.1 == x.2;
        if trip {
            meld = meld + if is_terminal_or_honor_tile(x.0) { 8 } else { 4 };
            if x.0.matches_identity(win) {
                waits = true;
            }
        } else {
            if (win == x.0 || win == x.1 || win == x.2) && !is_ryanmen_win(x, win) {
                waits = true;
            }
        }
        i = i + 1;
    }
    proof {
        assert(sets@.take(sets@.len() as int) =~= sets@);
        if waits {
            let j = choose|j: int| 0 <= j < sets@.len() && set_wait_scores(#[trigger] sets@[j], win);
            assert(sets@.contains(sets@[j]));
            assert(ms.count(sets@[j]) > 0);
        } else {
            assert forall|x: SetTiles| !(#[trigger] ms.count(x) > 0 && set_wait_scores(x, win)) by {
                if ms.count(x) > 0 {
                    assert(sets@.contains(x));
                }
            }
        }
    }
    let pair_scores = p == seat_wind || p == Tile::wind(Wind::East) || matches!(p.kind, TileKind::Dragon(_));
    FuDecomposition {
        concealed_meld_fu: meld,
        pair_fu: if pair_scores { 2 } else { 0 },
        wait_fu: if p.matches_identity(win) || waits { 2 } else { 0 },
    }
}

fn is_terminal_or_honor_tile(t: Tile) -> (b: bool)
    ensures
        b == terminal_or_honor_kind(t.kind),
{
    super::win::is_terminal_or_honor(t)
}

/// The fu of the cheapest decomposition (concealed meld fu plus wait fu), zero when the tiles
/// have no standard decomposition.
pub open spec fn best_fu_ok(ctx: &WinContext, d: FuDecomposition) -> bool {
    let sw = seat_wind_of(ctx.winner as int, ctx.state.dealer as int);
    let h = *ctx.hand;
    if exists|p: Tile, l: Seq<SetTiles>| #[trigger] split_of(h, ctx.win_tile, ctx.win_type, p, l) {
        &&& exists|p: Tile, l: Seq<SetTiles>|
            #[trigger] split_of(h, ctx.win_tile, ctx.win_type, p, l) && d == fu_of(p, l, ctx.win_tile, sw)
        &&& forall|p: Tile, l: Seq<SetTiles>|
            #[trigger] split_of(h, ctx.win_tile, ctx.win_type, p, l) ==> fu_cost(d) <= fu_cost(
                fu_of(p, l, ctx.win_tile, sw),
            )
    } else {
        d == FuDecomposition { concealed_meld_fu: 0, pair_fu: 0, wait_fu: 0 }
    }
}

/// Concealed meld, pair and wait fu of the minimum-fu standard decomposition.
pub fn best_fu_decomposition(ctx: &WinContext) -> (d: FuDecomposition)
    requires
        ctx_ok(ctx),
    ensures
        best_fu_ok(ctx, d),
{
    let sw = seat_wind_exec(ctx.winner, ctx.state.dealer);
    let ds = decompositions(ctx.hand, ctx.win_tile, ctx.win_type);
    let ghost h = *ctx.hand;
    let mut best: Option<FuDecomposition> = None;
    let ghost mut best_q: int = 0;
    let mut i: usize = 0;
    while i < ds.len()
        invariant
            i <= ds@.len(),
            sw == seat_wind_of(ctx.winner as int, ctx.state.dealer as int),
            h == *ctx.hand,
            forall|q: int| 0 <= q < ds@.len() ==> split_of(h, ctx.win_tile, ctx.win_type, (#[trigger] ds@[q]).0, ds@[q].1@),
            best is None <==> i == 0,
            best matches Some(b) ==> 0 <= best_q < i && b == fu_of(ds@[best_q].0, ds@[best_q].1@, ctx.win_tile, sw)
                && forall|q: int| 0 <= q < i ==> fu_cost(b) <= fu_cost(fu_of((#[trigger] ds@[q]).0, ds@[q].1@, ctx.win_tile, sw)),
        decreases ds@.len() - i,
    {
        proof {
            assert(split_of(h, ctx.win_tile, ctx.win_type, ds@[i as int].0, ds@[i as int].1@));
        }
        let cand = fu_of_exec(ds[i].0, &ds[i].1, ctx.win_tile, sw);
        let take = match best {
            None => true,
            Some(b) => (cand.concealed_meld_fu as u16 + cand.wait_fu as u16) < (b.concealed_meld_fu as u16 + b.wait_fu as u16),
        };
        if take {
            best = Some(cand);
            proof {
                best_q = i as int;
            }
        }
        i = i + 1;
    }
    match best {
        Some(b) => {
            proof {
                assert(split_of(h, ctx.win_tile, ctx.win_type, ds@[best_q].0, ds@[best_q].1@));
                assert forall|p: Tile, l: Seq<SetTiles>|
                    #[trigger] split_of(h, ctx.win_tile, ctx.win_type, p, l) implies fu_cost(b) <= fu_cost(
                        fu_of(p, l, ctx.win_tile, sw),
                    ) by {
                    assert(covered(ds@, p, l));
                    let q = choose|q: int| 0 <= q < ds@.len() && (#[trigger] ds@[q]).0 == p && ds@[q].1@.to_multiset() == l.to_multiset();
                    lemma_meld_fu_perm(ds@[q].1@, l);
                    assert(fu_cost(b) <= fu_cost(fu_of(ds@[q].0, ds@[q].1@, ctx.win_tile, sw)));
                }
            }
            b
        },
        None => {
            proof {
                assert forall|p: Tile, l: Seq<SetTiles>| !#[trigger] split_of(h, ctx.win_tile, ctx.win_type, p, l) by {
                    if split_of(h, ctx.win_tile, ctx.win_type, p, l) {
                        assert(covered(ds@, p, l));
                    }
                }
            }
            FuDecomposition { concealed_meld_fu: 0, pair_fu: 0, wait_fu: 0 }
        },
    }
}

/// The fu of any decomposition the best choice can be are small.
pub proof fn lemma_best_fu_small(ctx: &WinContext, d: FuDecomposition)
    requires
        ctx_ok(ctx),
        best_fu_ok(ctx, d),
    ensures
        d.concealed_meld_fu <= 32,
        d.pair_fu <= 2,
        d.wait_fu <= 2,
{
    let sw = seat_wind_of(ctx.winner as int, ctx.state.dealer as int);
    let h = *ctx.hand;
    if exists|p: Tile, l: Seq<SetTiles>| #[trigger] split_of(h, ctx.win_tile, ctx.win_type, p, l) {
        let (p, l) = choose|p: Tile, l: Seq<SetTiles>|
            #[trigger] split_of(h, ctx.win_tile, ctx.win_type, p, l) && d == fu_of(p, l, ctx.win_tile, sw);
        lemma_meld_fu_bound(l);
    }
}

} // verus!
