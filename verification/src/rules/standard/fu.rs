//! Fu (minipoints) of a win.

use vstd::prelude::*;

use crate::hand::{Meld, MeldKind};
use crate::rules::RulesConfig;
use crate::rules::context::WinContext;
use crate::scoring::{WinType, Yaku, is_yakuman_spec};
use crate::tile::Tile;

use super::patterns::ctx_ok;
use super::waits::{FuDecomposition, best_fu_decomposition, best_fu_ok};
use super::win::{terminal_or_honor_kind, triplet_fu};

verus! {

pub open spec fn triplet_fu_of(t: Tile, closed: bool) -> nat {
    (if closed { 2nat } else { 1nat }) * (if terminal_or_honor_kind(t.kind) { 4nat } else { 2nat })
}

/// Fu of a laid-open meld: none for a chi, a triplet's for a pon, four times that for a kan.
pub open spec fn open_meld_fu(m: Meld) -> nat {
    match m.kind {
        MeldKind::Chi => 0,
        MeldKind::Pon => triplet_fu_of(m.tiles@[0], false),
        MeldKind::OpenKan => 4 * triplet_fu_of(m.tiles@[0], false),
        MeldKind::ClosedKan => 4 * triplet_fu_of(m.tiles@[0], true),
    }
}

/// A closed kan is worth four times a closed triplet of its face: 16 fu, or 32 for a
/// terminal or honor. That is twice an open kan of the same face (8 or 16 fu), so the
/// same face laid as a closed kan always scores more than laid as an open kan.
pub proof fn lemma_closed_kan_fu(kan_closed: Meld, kan_laid: Meld)
    requires
        kan_closed.kind is ClosedKan,
        kan_laid.kind is OpenKan,
        kan_closed.tiles@[0].kind == kan_laid.tiles@[0].kind,
    ensures
        open_meld_fu(kan_closed) == (if terminal_or_honor_kind(kan_closed.tiles@[0].kind) {
            32nat
        } else {
            16nat
        }),
        open_meld_fu(kan_laid) == (if terminal_or_honor_kind(kan_laid.tiles@[0].kind) {
            16nat
        } else {
            8nat
        }),
        open_meld_fu(kan_closed) == 2 * open_meld_fu(kan_laid),
        open_meld_fu(kan_closed) > open_meld_fu(kan_laid),
{
}

/// Fu of each laid meld by its kind: a chi none; a pon 2 (4 for a terminal or honor); an
/// open kan 8 (16); a closed kan 16 (32).
pub proof fn lemma_meld_fu_table(m: Meld)
    ensures
        m.kind is Chi ==> open_meld_fu(m) == 0,
        m.kind is Pon ==> open_meld_fu(m) == (if terminal_or_honor_kind(m.tiles@[0].kind) {
            4nat
        } else {
            2nat
        }),
        m.kind is OpenKan ==> open_meld_fu(m) == (if terminal_or_honor_kind(m.tiles@[0].kind) {
            16nat
        } else {
            8nat
        }),
        m.kind is ClosedKan ==> open_meld_fu(m) == (if terminal_or_honor_kind(m.tiles@[0].kind) {
            32nat
        } else {
            16nat
        }),
{
}

pub open spec fn melds_fu(ms: Seq<Meld>) -> nat
    decreases ms.len(),
{
    if ms.len() == 0 {
        0
    } else {
        melds_fu(ms.drop_last()) + open_meld_fu(ms.last())
    }
}

/// `v` rounded up to a multiple of ten.
pub open spec fn round_up_ten(v: int) -> int {
    ((v + 9) / 10) * 10
}

/// Fu of a regular win given the fu of its decomposition: 20, plus melds, concealed sets,
/// pair and wait, plus 10 for a closed ron or 2 for a tsumo; rounded up to ten under kiriage;
/// at least 30 for an open hand or a ron.
pub open spec fn regular_fu(ctx: &WinContext, d: FuDecomposition, config: RulesConfig) -> int {
    let menzen = ctx.hand.melds@.len() == 0;
    let ron = ctx.win_type is Ron;
    let base = 20 + melds_fu(ctx.hand.melds@) + d.concealed_meld_fu + d.pair_fu + d.wait_fu + (if menzen
        && ron {
        10int
    } else {
        0int
    }) + (if !ron {
        2int
    } else {
        0int
    });
    let rounded = if config.kiriage { round_up_ten(base) } else { base };
    if (!menzen || ron) && rounded < 30 {
        30
    } else {
        rounded
    }
}

/// The fu of the win with the given yaku: 30 for a yakuman; 25 (rounded under kiriage) for
/// seven pairs; 30 ron / 20 tsumo for pinfu; otherwise the regular count over the cheapest
/// decomposition.
pub open spec fn fu_ok(ctx: &WinContext, yaku: Seq<Yaku>, config: RulesConfig, fu: u8) -> bool {
    if exists|i: int| 0 <= i < yaku.len() && is_yakuman_spec(#[trigger] yaku[i]) {
        fu == 30
    } else if yaku.contains(Yaku::Chiitoitsu) {
        fu == if config.kiriage { 30u8 } else { 25u8 }
    } else if yaku.contains(Yaku::Pinfu) {
        fu == if ctx.win_type is Ron { 30u8 } else { 20u8 }
    } else {
        exists|d: FuDecomposition| best_fu_ok(ctx, d) && fu == regular_fu(ctx, d, config)
    }
}

proof fn lemma_round_up_ten(v: int)
    requires
        v >= 0,
    ensures
        v <= round_up_ten(v) < v + 10,
        v <= 20 ==> round_up_ten(v) <= 20,
        21 <= v <= 30 ==> round_up_ten(v) == 30,
        v >= 30 ==> round_up_ten(v) >= 30,
{
}

/// With kiriage the fu of a regular win is its fu without kiriage, rounded up to ten.
proof fn lemma_regular_fu_kiriage(ctx: &WinContext, d: FuDecomposition, config: RulesConfig)
    requires
        !config.kiriage,
    ensures
        regular_fu(ctx, d, RulesConfig { kiriage: true, ..config }) == round_up_ten(regular_fu(ctx, d, config)),
        regular_fu(ctx, d, config) >= 0,
{
    let menzen = ctx.hand.melds@.len() == 0;
    let ron = ctx.win_type is Ron;
    let base = 20 + melds_fu(ctx.hand.melds@) + d.concealed_meld_fu + d.pair_fu + d.wait_fu + (if menzen && ron {
        10int
    } else {
        0int
    }) + (if !ron {
        2int
    } else {
        0int
    });
    lemma_round_up_ten(base);
    lemma_round_up_ten(30);
}

/// Kiriage only rounds up to the next ten: every fu the rules give under kiriage is a fu
/// they give without it, rounded up to ten, and rounding up any fu they give without it gives
/// one they give under kiriage.
pub proof fn lemma_kiriage_rounds_up(ctx: &WinContext, yaku: Seq<Yaku>, config: RulesConfig)
    requires
        !config.kiriage,
    ensures
        forall|f: u8| #[trigger] fu_ok(ctx, yaku, RulesConfig { kiriage: true, ..config }, f) ==> exists|f0: u8|
            #[trigger] fu_ok(ctx, yaku, config, f0) && f == round_up_ten(f0 as int),
        forall|f0: u8| #[trigger] fu_ok(ctx, yaku, config, f0) && round_up_ten(f0 as int) <= 255 ==> fu_ok(
            ctx,
            yaku,
            RulesConfig { kiriage: true, ..config },
            round_up_ten(f0 as int) as u8,
        ),
{
    let k = RulesConfig { kiriage: true, ..config };
    lemma_round_up_ten(20);
    lemma_round_up_ten(25);
    lemma_round_up_ten(30);
    assert forall|f: u8| #[trigger] fu_ok(ctx, yaku, k, f) implies exists|f0: u8|
        #[trigger] fu_ok(ctx, yaku, config, f0) && f == round_up_ten(f0 as int) by {
        if exists|i: int| 0 <= i < yaku.len() && is_yakuman_spec(#[trigger] yaku[i]) {
            assert(fu_ok(ctx, yaku, config, 30u8));
        } else if yaku.contains(Yaku::Chiitoitsu) {
            assert(fu_ok(ctx, yaku, config, 25u8));
        } else if yaku.contains(Yaku::Pinfu) {
            assert(fu_ok(ctx, yaku, config, f));
        } else {
            let d = choose|d: FuDecomposition| best_fu_ok(ctx, d) && f == regular_fu(ctx, d, k);
            lemma_regular_fu_kiriage(ctx, d, config);
            lemma_round_up_ten(regular_fu(ctx, d, config));
            let f0 = regular_fu(ctx, d, config) as u8;
            assert(fu_ok(ctx, yaku, config, f0));
        }
    }
    assert forall|f0: u8| #[trigger] fu_ok(ctx, yaku, config, f0) && round_up_ten(f0 as int) <= 255 implies fu_ok(
        ctx,
        yaku,
        k,
        round_up_ten(f0 as int) as u8,
    ) by {
        lemma_round_up_ten(f0 as int);
        if exists|i: int| 0 <= i < yaku.len() && is_yakuman_spec(#[trigger] yaku[i]) {
        } else if yaku.contains(Yaku::Chiitoitsu) {
        } else if yaku.contains(Yaku::Pinfu) {
        } else {
            let d = choose|d: FuDecomposition| best_fu_ok(ctx, d) && f0 == regular_fu(ctx, d, config);
            lemma_regular_fu_kiriage(ctx, d, config);
        }
    }
}

fn contains_yaku(yaku: &[Yaku], y: Yaku) -> (b: bool)
    ensures
        b == yaku@.contains(y),
{
    let mut i: usize = 0;
    while i < yaku.len()
        invariant
            i <= yaku@.len(),
            forall|j: int| 0 <= j < i ==> yaku@[j] != y,
        decreases yaku@.len() - i,
    {
        if yaku[i] == y {
            return true;
        }
        i = i + 1;
    }
    false
}

fn open_meld_fu_exec(m: &Meld) -> (f: u8)
    requires
        1 <= m.tiles@.len(),
    ensures
        f == open_meld_fu(*m),
        f <= 32,
{
    match m.kind {
        MeldKind::Chi => 0,
        MeldKind::Pon => triplet_fu(m.tiles[0], false),
        MeldKind::OpenKan => triplet_fu(m.tiles[0], false) * 4,
        MeldKind::ClosedKan => triplet_fu(m.tiles[0], true) * 4,
    }
}

proof fn lemma_meld_fu_bound(m: Meld)
    ensures
        open_meld_fu(m) <= 32,
{
}

/// The fu of the win.
pub fn calculate_fu(ctx: &WinContext, yaku: &[Yaku], config: &RulesConfig) -> (fu: u8)
    requires
        ctx_ok(ctx),
    ensures
        fu_ok(ctx, yaku@, *config, fu),
{
    let mut i: usize = 0;
    while i < yaku.len()
        invariant
            i <= yaku@.len(),
            forall|j: int| 0 <= j < i ==> !is_yakuman_spec(#[trigger] yaku@[j]),
        decreases yaku@.len() - i,
    {
        if yaku[i].is_yakuman() {
            return 30;
        }
        i = i + 1;
    }
    if contains_yaku(yaku, Yaku::Chiitoitsu) {
        return if config.kiriage { 30 } else { 25 };
    }
    if contains_yaku(yaku, Yaku::Pinfu) {
        return match ctx.win_type {
            WinType::Ron { .. } => 30,
            WinType::Tsumo => 20,
        };
    }
    let mut melds: u16 = 0;
    let mut k: usize = 0;
    while k < ctx.hand.melds.len()
        invariant
            k <= ctx.hand.melds@.len(),
            ctx_ok(ctx),
            melds == melds_fu(ctx.hand.melds@.take(k as int)),
            melds <= 32 * k,
        decreases ctx.hand.melds@.len() - k,
    {
        proof {
            assert(ctx.hand.melds@.take(k + 1).drop_last() =~= ctx.hand.melds@.take(k as int));
            assert(1 <= ctx.hand.melds@[k as int].tiles@.len());
        }
        let f = open_meld_fu_exec(&ctx.hand.melds[k]);
        melds = melds + f as u16;
        k = k + 1;
    }
    proof {
        assert(ctx.hand.melds@.take(ctx.hand.melds@.len() as int) =~= ctx.hand.melds@);
    }
    let d = best_fu_decomposition(ctx);
    let menzen = ctx.is_menzen();
    let ron = matches!(ctx.win_type, WinType::Ron { .. });
    let mut fu: u16 = 20 + melds + d.concealed_meld_fu as u16 + d.pair_fu as u16 + d.wait_fu as u16;
    if menzen && ron {
        fu = fu + 10;
    }
    if !ron {
        fu = fu + 2;
    }
    if config.kiriage {
        fu = ((fu + 9) / 10) * 10;
    }
    if (!menzen || ron) && fu < 30 {
        fu = 30;
    }
    proof {
        assert(fu == regular_fu(ctx, d, *config));
        assert(fu <= 255) by {
            lemma_best_fu_bound(ctx, d);
        }
    }
    fu as u8
}

proof fn lemma_best_fu_bound(ctx: &WinContext, d: FuDecomposition)
    requires
        ctx_ok(ctx),
        best_fu_ok(ctx, d),
    ensures
        d.concealed_meld_fu <= 32,
        d.pair_fu <= 2,
        d.wait_fu <= 2,
{
    super::waits::lemma_best_fu_small(ctx, d);
}

} // verus!
