//! Yakuman (limit hand) detection for the standard profile.

use vstd::prelude::*;

use crate::hand::MeldKind;
use crate::rules::context::WinContext;
use crate::scoring::Yaku;
use crate::tile::{Dragon, Suit, Tile, TileKind};

use super::patterns::{Pattern, ctx_ok, some_split_has, some_split_shows};
use super::win::{
    all_tiles_in_hand, full_hand, is_kokushi_tiles, is_nine_gates_tiles, kokushi_shape,
    nine_gates, tiles_with_win_tile, with_call_tile,
};

verus! {

broadcast use vstd::seq_lib::group_to_multiset_ensures;

/// Tiles of the all-green hand: sou 2, 3, 4, 6, 8 and the green dragon.
pub open spec fn green_tile(t: Tile) -> bool {
    match t.kind {
        TileKind::Sou(r) => r == 2 || r == 3 || r == 4 || r == 6 || r == 8,
        TileKind::Dragon(d) => d == Dragon::Green,
        _ => false,
    }
}

/// Kans among the melds of the first `n`.
pub open spec fn kan_count_upto(ms: Seq<crate::hand::Meld>, n: int) -> nat
    decreases n,
{
    if n <= 0 {
        0
    } else {
        kan_count_upto(ms, n - 1) + if ms[n - 1].kind == MeldKind::OpenKan || ms[n - 1].kind
            == MeldKind::ClosedKan {
            1nat
        } else {
            0nat
        }
    }
}

pub open spec fn kokushi_spec(ctx: &WinContext) -> bool {
    ctx.hand.melds@.len() == 0 && kokushi_shape(
        with_call_tile(ctx.hand.concealed@, ctx.win_tile, ctx.win_type).to_multiset(),
    )
}

pub open spec fn chuuren_spec(ctx: &WinContext) -> bool {
    ctx.hand.melds@.len() == 0 && nine_gates(full_hand(*ctx.hand, ctx.win_tile, ctx.win_type))
}

pub open spec fn suuankou_spec(ctx: &WinContext) -> bool {
    (forall|i: int| 0 <= i < ctx.hand.melds@.len() ==> (#[trigger] ctx.hand.melds@[i]).kind == MeldKind::ClosedKan)
        && some_split_has(Pattern::AllTriplets, *ctx.hand, ctx.win_tile, ctx.win_type)
}

pub open spec fn ryuuiisou_spec(ctx: &WinContext) -> bool {
    forall|t: Tile| #[trigger] full_hand(*ctx.hand, ctx.win_tile, ctx.win_type).count(t) > 0 ==> green_tile(t)
}

pub open spec fn suukantsu_spec(ctx: &WinContext) -> bool {
    kan_count_upto(ctx.hand.melds@, ctx.hand.melds@.len() as int) >= 4
}

pub open spec fn pattern_spec(ctx: &WinContext, pat: Pattern) -> bool {
    some_split_has(pat, *ctx.hand, ctx.win_tile, ctx.win_type)
}

/// Thirteen orphans, closed.
pub fn is_kokushi_hand(ctx: &WinContext) -> (b: bool)
    ensures
        b == kokushi_spec(ctx),
{
    if !ctx.is_menzen() {
        return false;
    }
    let tiles = tiles_with_win_tile(ctx.hand, ctx.win_tile, ctx.win_type);
    is_kokushi_tiles(tiles.as_slice())
}

/// Nine gates, closed.
pub fn is_chuuren_hand(ctx: &WinContext) -> (b: bool)
    ensures
        b == chuuren_spec(ctx),
{
    if !ctx.is_menzen() {
        return false;
    }
    let tiles = all_tiles_in_hand(ctx.hand, ctx.win_tile, ctx.win_type);
    is_nine_gates_tiles(tiles.as_slice())
}

/// Four concealed triplets (closed kans allowed).
pub fn is_suuankou_hand(ctx: &WinContext) -> (b: bool)
    requires
        ctx_ok(ctx),
    ensures
        b == suuankou_spec(ctx),
{
    let mut i: usize = 0;
    while i < ctx.hand.melds.len()
        invariant
            i <= ctx.hand.melds@.len(),
            forall|j: int| 0 <= j < i ==> (#[trigger] ctx.hand.melds@[j]).kind == MeldKind::ClosedKan,
        decreases ctx.hand.melds@.len() - i,
    {
        if ctx.hand.melds[i].kind != MeldKind::ClosedKan {
            return false;
        }
        i = i + 1;
    }
    some_split_shows(Pattern::AllTriplets, ctx.hand, ctx.win_tile, ctx.win_type)
}

/// Triplets of all three dragons.
pub fn is_daisangen_hand(ctx: &WinContext) -> (b: bool)
    requires
        ctx_ok(ctx),
    ensures
        b == pattern_spec(ctx, Pattern::ThreeDragons),
{
    some_split_shows(Pattern::ThreeDragons, ctx.hand, ctx.win_tile, ctx.win_type)
}

/// Three wind triplets and a wind pair.
pub fn is_shousuushii_hand(ctx: &WinContext) -> (b: bool)
    requires
        ctx_ok(ctx),
    ensures
        b == pattern_spec(ctx, Pattern::LittleWinds),
{
    some_split_shows(Pattern::LittleWinds, ctx.hand, ctx.win_tile, ctx.win_type)
}

/// Four wind triplets.
pub fn is_daisuushii_hand(ctx: &WinContext) -> (b: bool)
    requires
        ctx_ok(ctx),
    ensures
        b == pattern_spec(ctx, Pattern::BigWinds),
{
    some_split_shows(Pattern::BigWinds, ctx.hand, ctx.win_tile, ctx.win_type)
}

/// Only green tiles.
pub fn is_ryuuiisou_hand(ctx: &WinContext) -> (b: bool)
    ensures
        b == ryuuiisou_spec(ctx),
{
    let tiles = all_tiles_in_hand(ctx.hand, ctx.win_tile, ctx.win_type);
    let ghost m = tiles@.to_multiset();
    let mut i: usize = 0;
    while i < tiles.len()
        invariant
            i <= tiles@.len(),
            m == tiles@.to_multiset(),
            m == full_hand(*ctx.hand, ctx.win_tile, ctx.win_type),
            forall|j: int| 0 <= j < i ==> green_tile(#[trigger] tiles@[j]),
        decreases tiles@.len() - i,
    {
        let green = match tiles[i].kind {
            TileKind::Sou(r) => r == 2 || r == 3 || r == 4 || r == 6 || r == 8,
            TileKind::Dragon(d) => d == Dragon::Green,
            _ => false,
        };
        if !green {
            proof {
                assert(tiles@.contains(tiles@[i as int]));
                assert(m.count(tiles@[i as int]) > 0);
            }
            return false;
        }
        i = i + 1;
    }
    proof {
        assert forall|t: Tile| #[trigger] m.count(t) > 0 implies green_tile(t) by {
            assert(tiles@.contains(t));
        }
    }
    true
}

/// Four kans.
pub fn is_suukantsu_hand(ctx: &WinContext) -> (b: bool)
    ensures
        b == suukantsu_spec(ctx),
{
    let mut n: usize = 0;
    let mut i: usize = 0;
    while i < ctx.hand.melds.len()
        invariant
            i <= ctx.hand.melds@.len(),
            n == kan_count_upto(ctx.hand.melds@, i as int),
            n <= i,
        decreases ctx.hand.melds@.len() - i,
    {
        let k = ctx.hand.melds[i].kind;
        if k == MeldKind::OpenKan || k == MeldKind::ClosedKan {
            n = n + 1;
        }
        i = i + 1;
    }
    n >= 4
}

/// The yakuman of the win, in detection order, with suuankou dropped when a more specific
/// limit hand (or a little/big winds hand) is present.
pub open spec fn yakuman_of(ctx: &WinContext) -> Seq<Yaku> {
    let kokushi = kokushi_spec(ctx);
    let chuuren = chuuren_spec(ctx);
    let suuankou = suuankou_spec(ctx);
    let daisangen = pattern_spec(ctx, Pattern::ThreeDragons);
    let daisuushii = pattern_spec(ctx, Pattern::BigWinds);
    let shousuushii = !daisuushii && pattern_spec(ctx, Pattern::LittleWinds);
    let ryuuiisou = ryuuiisou_spec(ctx);
    let suukantsu = suukantsu_spec(ctx);
    let keep_suuankou = suuankou && !daisuushii && !shousuushii && !daisangen && !kokushi && !chuuren
        && !ryuuiisou;
    Seq::<Yaku>::empty().add(if kokushi { seq![Yaku::Kokushi] } else { seq![] }).add(
        if chuuren { seq![Yaku::Chuuren] } else { seq![] },
    ).add(if keep_suuankou { seq![Yaku::Suuankou] } else { seq![] }).add(
        if daisangen { seq![Yaku::Daisangen] } else { seq![] },
    ).add(if daisuushii { seq![Yaku::Daisuushii] } else { seq![] }).add(
        if shousuushii { seq![Yaku::Shousuushii] } else { seq![] },
    ).add(if ryuuiisou { seq![Yaku::Ryuuiisou] } else { seq![] }).add(
        if suukantsu { seq![Yaku::Suukantsu] } else { seq![] },
    )
}

fn push_if(v: &mut Vec<Yaku>, cond: bool, y: Yaku)
    ensures
        final(v)@ == old(v)@.add(if cond { seq![y] } else { seq![] }),
{
    if cond {
        v.push(y);
    }
    assert(final(v)@ =~= old(v)@.add(if cond { seq![y] } else { seq![] }));
}

/// Yakuman of the win.
pub fn detect(ctx: &WinContext) -> (v: Vec<Yaku>)
    requires
        ctx_ok(ctx),
    ensures
        v@ == yakuman_of(ctx),
{
    let kokushi = is_kokushi_hand(ctx);
    let chuuren = is_chuuren_hand(ctx);
    let suuankou = is_suuankou_hand(ctx);
    let daisangen = is_daisangen_hand(ctx);
    let daisuushii = is_daisuushii_hand(ctx);
    let shousuushii = !daisuushii && is_shousuushii_hand(ctx);
    let ryuuiisou = is_ryuuiisou_hand(ctx);
    let suukantsu = is_suukantsu_hand(ctx);
    let keep_suuankou = suuankou && !daisuushii && !shousuushii && !daisangen && !kokushi && !chuuren
        && !ryuuiisou;
    let mut v: Vec<Yaku> = Vec::new();
    push_if(&mut v, kokushi, Yaku::Kokushi);
    push_if(&mut v, chuuren, Yaku::Chuuren);
    push_if(&mut v, keep_suuankou, Yaku::Suuankou);
    push_if(&mut v, daisangen, Yaku::Daisangen);
    push_if(&mut v, daisuushii, Yaku::Daisuushii);
    push_if(&mut v, shousuushii, Yaku::Shousuushii);
    push_if(&mut v, ryuuiisou, Yaku::Ryuuiisou);
    push_if(&mut v, suukantsu, Yaku::Suukantsu);
    proof {
        assert(v@ =~= yakuman_of(ctx));
    }
    v
}

} // verus!
