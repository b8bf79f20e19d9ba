//! Yaku detection and han counting for the standard profile.

use vstd::prelude::*;

use crate::rules::RulesConfig;
use crate::rules::context::{WinContext, chiihou, renhou, tenhou};
use crate::scoring::{WinType, Yaku, closed_han_spec, open_penalty_spec};
use crate::tile::{Dragon, Tile, Wind};

use super::patterns::{
    Pattern, chanta_spec, chiitoitsu_spec, chinitsu_spec, ctx_ok, dragon_tile, honitsu_spec,
    is_chanta_hand, is_chinitsu_hand, is_honitsu_hand, is_iipeikou_hand, is_ittsu_hand,
    is_junchan_hand, is_ryanpeikou_hand, is_sanshoku_hand, is_toitoi_hand, junchan_spec,
    some_split_has, toitoi_spec, wind_tile,
};
use super::waits::{is_pinfu_hand, pinfu_spec, seat_wind_of};
use super::win::{
    full_hand, hand_contains_yakuhai, holds_yakuhai, is_chiitoitsu_hand, is_tanyao_hand, simple_tile,
};
use super::yakuman::{detect as detect_yakuman, yakuman_of};

verus! {

/// The hand holds a seat-wind, round-wind (East) or dragon face in hand or in a pon or kan.
pub open spec fn yakuhai_spec(ctx: &WinContext) -> bool {
    let h = *ctx.hand;
    ||| holds_yakuhai(h, seat_wind_of(ctx.winner as int, ctx.state.dealer as int))
    ||| holds_yakuhai(h, wind_tile(Wind::East))
    ||| holds_yakuhai(h, dragon_tile(Dragon::White))
    ||| holds_yakuhai(h, dragon_tile(Dragon::Green))
    ||| holds_yakuhai(h, dragon_tile(Dragon::Red))
}

pub open spec fn tanyao_spec(ctx: &WinContext) -> bool {
    forall|t: Tile| #[trigger] full_hand(*ctx.hand, ctx.win_tile, ctx.win_type).count(t) > 0 ==> simple_tile(t)
}

/// `[a]` when `ca`, else `[b]` when `cb`, else nothing.
pub open spec fn either(ca: bool, a: Yaku, cb: bool, b: Yaku) -> Seq<Yaku> {
    if ca {
        seq![a]
    } else {
        when(cb, b)
    }
}

pub open spec fn when(c: bool, y: Yaku) -> Seq<Yaku> {
    if c {
        seq![y]
    } else {
        seq![]
    }
}

/// Riichi, ippatsu and timing yaku, in listing order.
pub open spec fn head_of(ctx: &WinContext) -> Seq<Yaku> {
    let st = *ctx.state;
    let w = ctx.winner as int;
    let riichi = st.riichi@[w];
    let timing = if tenhou(st, w, ctx.win_type) || chiihou(st, w, ctx.win_type) {
        seq![Yaku::TenhouChiihou]
    } else {
        when(ctx.is_haitei || ctx.is_houtei, Yaku::HaiteiHoutei) + when(ctx.is_rinshan, Yaku::Rinshan)
            + when(ctx.is_chankan, Yaku::Chankan) + when(renhou(st, w, ctx.win_type), Yaku::Renhou)
    };
    (if st.double_riichi@[w] {
        seq![Yaku::DoubleRiichi]
    } else {
        when(riichi, Yaku::Riichi)
    }) + when(riichi && st.ippatsu_live@[w], Yaku::Ippatsu) + timing
}

/// The regular yaku list from the individual findings, in listing order, with the
/// precedences between them (chinitsu over honitsu, junchan over chanta, ryanpeikou over
/// iipeikou, pinfu only without yakuhai, tanyao and the run/triplet patterns, seven pairs
/// only when no standard-form pattern applies).
pub open spec fn regular_seq(
    tsumo: bool,
    chin: bool,
    hon: bool,
    jun: bool,
    chan: bool,
    tan: bool,
    ryan: bool,
    iip: bool,
    toi: bool,
    san: bool,
    itt: bool,
    pinfu_shape: bool,
    yakuhai: bool,
    chiitoi_shape: bool,
) -> Seq<Yaku> {
    let pinfu = pinfu_shape && !yakuhai && !tan && !toi && !iip && !ryan && !san && !itt;
    let chiitoi = chiitoi_shape && !(toi || ryan || iip || san || itt);
    Seq::empty() + when(tsumo, Yaku::MenzenTsumo) + either(chin, Yaku::Chinitsu, hon, Yaku::Honitsu)
        + either(jun, Yaku::Junchan, chan, Yaku::Chanta) + when(tan, Yaku::Tanyao) + either(
        ryan,
        Yaku::Ryanpeikou,
        iip,
        Yaku::Iipeikou,
    ) + when(toi, Yaku::Toitoi) + when(san, Yaku::Sanshoku) + when(itt, Yaku::Ittsu) + when(
        pinfu,
        Yaku::Pinfu,
    ) + when(yakuhai, Yaku::Yakuhai) + when(chiitoi, Yaku::Chiitoitsu)
}

/// The regular (non-limit) yaku of the win.
pub open spec fn regular_of(ctx: &WinContext) -> Seq<Yaku> {
    let hand = *ctx.hand;
    let menzen = hand.melds@.len() == 0;
    regular_seq(
        ctx.win_type is Tsumo && menzen && !tenhou(*ctx.state, ctx.winner as int, ctx.win_type),
        chinitsu_spec(full_hand(hand, ctx.win_tile, ctx.win_type)),
        honitsu_spec(full_hand(hand, ctx.win_tile, ctx.win_type)),
        junchan_spec(ctx),
        chanta_spec(ctx),
        tanyao_spec(ctx),
        menzen && some_split_has(Pattern::TwoPeikou, hand, ctx.win_tile, ctx.win_type),
        menzen && some_split_has(Pattern::OnePeikou, hand, ctx.win_tile, ctx.win_type),
        toitoi_spec(ctx),
        some_split_has(Pattern::ThreeColourRun, hand, ctx.win_tile, ctx.win_type),
        some_split_has(Pattern::Straight, hand, ctx.win_tile, ctx.win_type),
        menzen && pinfu_spec(ctx),
        yakuhai_spec(ctx),
        menzen && chiitoitsu_spec(hand, ctx.win_tile, ctx.win_type),
    )
}

/// The yaku of a win: riichi and timing yaku first; then the yakuman if there are any,
/// otherwise the regular yaku.
pub open spec fn yaku_of(ctx: &WinContext) -> Seq<Yaku> {
    if yakuman_of(ctx).len() > 0 {
        head_of(ctx) + yakuman_of(ctx)
    } else {
        head_of(ctx) + regular_of(ctx)
    }
}

fn push_when(v: &mut Vec<Yaku>, c: bool, y: Yaku)
    ensures
        final(v)@ == old(v)@ + when(c, y),
{
    if c {
        v.push(y);
    }
    assert(final(v)@ =~= old(v)@ + when(c, y));
}

fn push_either(v: &mut Vec<Yaku>, ca: bool, a: Yaku, cb: bool, b: Yaku)
    ensures
        final(v)@ == old(v)@ + either(ca, a, cb, b),
{
    if ca {
        v.push(a);
    } else if cb {
        v.push(b);
    }
    assert(final(v)@ =~= old(v)@ + either(ca, a, cb, b));
}

fn has_yakuhai(ctx: &WinContext) -> (b: bool)
    requires
        ctx.wf(),
    ensures
        b == yakuhai_spec(ctx),
{
    let seat_wind = Tile::wind(Wind::from_index((ctx.winner + 4 - ctx.state.dealer) % 4));
    proof {
        let i = (ctx.winner + 4 - ctx.state.dealer) % 4;
        assert(seat_wind == seat_wind_of(ctx.winner as int, ctx.state.dealer as int));
    }
    hand_contains_yakuhai(ctx.hand, seat_wind) || hand_contains_yakuhai(ctx.hand, Tile::wind(Wind::East))
        || hand_contains_yakuhai(ctx.hand, Tile::dragon(Dragon::White)) || hand_contains_yakuhai(
        ctx.hand,
        Tile::dragon(Dragon::Green),
    ) || hand_contains_yakuhai(ctx.hand, Tile::dragon(Dragon::Red))
}

fn head_yaku(ctx: &WinContext) -> (v: Vec<Yaku>)
    requires
        ctx_ok(ctx),
    ensures
        v@ == head_of(ctx),
{
    let mut yaku: Vec<Yaku> = Vec::new();
    let riichi = ctx.is_riichi();
    if ctx.state.double_riichi[ctx.winner] {
        yaku.push(Yaku::DoubleRiichi);
    } else {
        push_when(&mut yaku, riichi, Yaku::Riichi);
    }
    push_when(&mut yaku, riichi && ctx.state.ippatsu_live[ctx.winner], Yaku::Ippatsu);
    let tenhou = ctx.is_tenhou();
    let chiihou = ctx.is_chiihou();
    if tenhou || chiihou {
        yaku.push(Yaku::TenhouChiihou);
    } else {
        push_when(&mut yaku, ctx.is_haitei || ctx.is_houtei, Yaku::HaiteiHoutei);
        push_when(&mut yaku, ctx.is_rinshan, Yaku::Rinshan);
        push_when(&mut yaku, ctx.is_chankan, Yaku::Chankan);
        let renhou = ctx.is_renhou();
        push_when(&mut yaku, renhou, Yaku::Renhou);
    }
    proof {
        assert(yaku@ =~= head_of(ctx));
    }
    yaku
}

fn build_regular(
    tsumo: bool,
    chin: bool,
    hon: bool,
    jun: bool,
    chan: bool,
    tan: bool,
    ryan: bool,
    iip: bool,
    toi: bool,
    san: bool,
    itt: bool,
    pinfu_shape: bool,
    yakuhai: bool,
    chiitoi_shape: bool,
) -> (v: Vec<Yaku>)
    ensures
        v@ == regular_seq(tsumo, chin, hon, jun, chan, tan, ryan, iip, toi, san, itt, pinfu_shape, yakuhai, chiitoi_shape),
{
    let mut yaku: Vec<Yaku> = Vec::new();
    push_when(&mut yaku, tsumo, Yaku::MenzenTsumo);
    push_either(&mut yaku, chin, Yaku::Chinitsu, hon, Yaku::Honitsu);
    push_either(&mut yaku, jun, Yaku::Junchan, chan, Yaku::Chanta);
    push_when(&mut yaku, tan, Yaku::Tanyao);
    push_either(&mut yaku, ryan, Yaku::Ryanpeikou, iip, Yaku::Iipeikou);
    push_when(&mut yaku, toi, Yaku::Toitoi);
    push_when(&mut yaku, san, Yaku::Sanshoku);
    push_when(&mut yaku, itt, Yaku::Ittsu);
    let pinfu = pinfu_shape && !yakuhai && !tan && !toi && !iip && !ryan && !san && !itt;
    push_when(&mut yaku, pinfu, Yaku::Pinfu);
    push_when(&mut yaku, yakuhai, Yaku::Yakuhai);
    let chiitoi = chiitoi_shape && !(toi || ryan || iip || san || itt);
    push_when(&mut yaku, chiitoi, Yaku::Chiitoitsu);
    yaku
}

#[verifier::spinoff_prover]
fn regular_yaku(ctx: &WinContext) -> (v: Vec<Yaku>)
    requires
        ctx_ok(ctx),
    ensures
        v@ == regular_of(ctx),
{
    let menzen = ctx.is_menzen();
    let tenhou = ctx.is_tenhou();
    let tsumo = matches!(ctx.win_type, WinType::Tsumo) && menzen && !tenhou;
    let chin = is_chinitsu_hand(ctx);
    let hon = is_honitsu_hand(ctx);
    let jun = is_junchan_hand(ctx);
    let chan = is_chanta_hand(ctx);
    let tan = is_tanyao_hand(ctx.hand, ctx.win_tile, ctx.win_type);
    let ryan = is_ryanpeikou_hand(ctx);
    let iip = is_iipeikou_hand(ctx);
    let toi = is_toitoi_hand(ctx);
    let san = is_sanshoku_hand(ctx);
    let itt = is_ittsu_hand(ctx);
    let pinfu_shape = menzen && is_pinfu_hand(ctx);
    let yakuhai = has_yakuhai(ctx);
    let chiitoi_shape = menzen && is_chiitoitsu_hand(ctx.hand, ctx.win_tile, ctx.win_type);
    build_regular(tsumo, chin, hon, jun, chan, tan, ryan, iip, toi, san, itt, pinfu_shape, yakuhai, chiitoi_shape)
}

fn append_yaku(v: &mut Vec<Yaku>, w: &Vec<Yaku>)
    ensures
        final(v)@ == old(v)@ + w@,
{
    let ghost head = v@;
    let mut i: usize = 0;
    while i < w.len()
        invariant
            i <= w@.len(),
            v@ == head + w@.take(i as int),
        decreases w@.len() - i,
    {
        v.push(w[i]);
        i = i + 1;
        assert(v@ =~= head + w@.take(i as int));
    }
    assert(w@.take(w@.len() as int) =~= w@);
}

/// Every yaku of the win.
pub fn detect_yaku(ctx: &WinContext, config: &RulesConfig) -> (v: Vec<Yaku>)
    requires
        ctx_ok(ctx),
    ensures
        v@ == yaku_of(ctx),
{
    let mut yaku = head_yaku(ctx);
    let ym = detect_yakuman(ctx);
    if ym.len() > 0 {
        append_yaku(&mut yaku, &ym);
    } else {
        let reg = regular_yaku(ctx);
        append_yaku(&mut yaku, &reg);
    }
    yaku
}

/// Han of one yaku: its closed value, one less for the eligible yaku of an open hand.
pub open spec fn han_of(y: Yaku, is_open: bool) -> nat {
    if is_open && open_penalty_spec(y) && closed_han_spec(y) >= 1 {
        (closed_han_spec(y) - 1) as nat
    } else {
        closed_han_spec(y) as nat
    }
}

pub open spec fn han_sum(ys: Seq<Yaku>, is_open: bool) -> nat
    decreases ys.len(),
{
    if ys.len() == 0 {
        0
    } else {
        han_sum(ys.drop_last(), is_open) + han_of(ys.last(), is_open)
    }
}

pub fn han_for_yaku(yaku: Yaku, is_open: bool) -> (h: u8)
    ensures
        h == han_of(yaku, is_open),
{
    let base = yaku.closed_han();
    if is_open && yaku.open_han_penalty() {
        base.saturating_sub(1)
    } else {
        base
    }
}

/// Total han of a list of yaku.
pub fn total_han(yaku: &[Yaku], is_open: bool) -> (h: u8)
    requires
        han_sum(yaku@, is_open) <= 255,
    ensures
        h == han_sum(yaku@, is_open),
{
    let mut total: u8 = 0;
    let mut i: usize = 0;
    while i < yaku.len()
        invariant
            i <= yaku@.len(),
            han_sum(yaku@, is_open) <= 255,
            total == han_sum(yaku@.take(i as int), is_open),
        decreases yaku@.len() - i,
    {
        proof {
            assert(yaku@.take(i + 1).drop_last() =~= yaku@.take(i as int));
            lemma_han_sum_prefix(yaku@, is_open, i + 1);
        }
        total = total + han_for_yaku(yaku[i], is_open);
        i = i + 1;
    }
    proof {
        assert(yaku@.take(yaku@.len() as int) =~= yaku@);
    }
    total
}

proof fn lemma_han_sum_prefix(ys: Seq<Yaku>, is_open: bool, k: int)
    requires
        0 <= k <= ys.len(),
    ensures
        han_sum(ys.take(k), is_open) <= han_sum(ys, is_open),
    decreases ys.len() - k,
{
    if k < ys.len() {
        lemma_han_sum_prefix(ys, is_open, k + 1);
        assert(ys.take(k + 1).drop_last() =~= ys.take(k));
    } else {
        assert(ys.take(k) =~= ys);
    }
}

} // verus!
