//! Planning paths for the standard rules: which tiles complete the hand, how each completed
//! hand scores, and how a path's hand is laid out for display.

use vstd::prelude::*;

use crate::hand::{Concealed, Hand, Meld, hand_shape_ok, hand_sizes_ok, remove_first};
use crate::rules::RulesConfig;
use crate::rules::context::{WinContext, WinTimingFlags, haitei_win, houtei_win, rinshan_win};
use crate::scoring::limits::base_points_spec;
use crate::rules::recommendations::{PathDecomposition, PathGroup, Recommendation};
use crate::rules::traits::RulesProfile;
use crate::scoring::{ScoringResult, WinType, Yaku};
use crate::state::hand_state::HandState;
use crate::state::reaction::ReactionKind;
use crate::text::decimal;
use crate::tile::{Suit, Tile, TileKind, numbered_tile, sort_tiles, sorted, tile_label, tile_rank, tile_suit};

use super::StandardRules;
use super::decomp::SetTiles;
use super::patterns::{MeldComponent, decompositions, open_components, open_melds, split_of};
use super::shape::is_triplet;
use super::win::{
    all_tiles_in_hand, all_wait_tiles, full_hand, is_chiitoitsu_hand, is_tenpai, is_winning_hand, pairs_only,
    tenpai_hand, tenpai_with, tiles_with_win_tile, wait_tile, winning_hand, wins_with, with_call_tile,
};

verus! {

broadcast use vstd::seq_lib::group_to_multiset_ensures;

/// The tiles among the first `n` of the 37 wait candidates that complete `h`.
pub open spec fn waits_upto(h: Hand, n: int) -> Seq<Tile>
    decreases n,
{
    if n <= 0 {
        Seq::empty()
    } else if winning_hand(h, Some(wait_tile(n - 1))) {
        waits_upto(h, n - 1).push(wait_tile(n - 1))
    } else {
        waits_upto(h, n - 1)
    }
}

/// The distinct tiles that complete `h`, in candidate order.
pub open spec fn waits_of(h: Hand) -> Seq<Tile> {
    waits_upto(h, 37)
}

/// The waits among the first `n` candidates are empty exactly when none of them completes `h`.
proof fn lemma_waits_upto_empty(h: Hand, n: int)
    requires
        0 <= n <= 37,
    ensures
        waits_upto(h, n).len() == 0 <==> forall|i: int| 0 <= i < n ==> !#[trigger] winning_hand(h, Some(wait_tile(i))),
    decreases n,
{
    if n > 0 {
        lemma_waits_upto_empty(h, n - 1);
    }
}

/// A hand is tenpai exactly when it has a wait.
pub proof fn lemma_tenpai_iff_waits(h: Hand)
    ensures
        tenpai_hand(h) <==> waits_of(h).len() > 0,
{
    lemma_waits_upto_empty(h, 37);
    if tenpai_hand(h) {
        let i = choose|i: int| 0 <= i < 37 && #[trigger] wins_with(h.concealed@, h.melds@.len(), Some(wait_tile(i)));
        assert(winning_hand(h, Some(wait_tile(i))));
    }
    if waits_of(h).len() > 0 {
        let i = choose|i: int| 0 <= i < 37 && !!#[trigger] winning_hand(h, Some(wait_tile(i)));
        assert(wins_with(h.concealed@, h.melds@.len(), Some(wait_tile(i))));
    }
}

/// The tiles that complete `hand`.
pub fn wait_tiles(hand: &Hand) -> (v: Vec<Tile>)
    ensures
        v@ == waits_of(*hand),
{
    let all = all_wait_tiles();
    let mut v: Vec<Tile> = Vec::new();
    let mut i: usize = 0;
    while i < all.len()
        invariant
            all@.len() == 37,
            forall|k: int| 0 <= k < 37 ==> all@[k] == wait_tile(k),
            i <= 37,
            v@ == waits_upto(*hand, i as int),
        decreases 37 - i,
    {
        if is_winning_hand(hand, Some(all[i])) {
            v.push(all[i]);
        }
        i = i + 1;
    }
    v
}

/// The distinct tiles among the first `n` of `s`, each at its first occurrence.
pub open spec fn distinct_upto(s: Seq<Tile>, n: int) -> Seq<Tile>
    decreases n,
{
    if n <= 0 {
        Seq::empty()
    } else if s.take(n - 1).contains(s[n - 1]) {
        distinct_upto(s, n - 1)
    } else {
        distinct_upto(s, n - 1).push(s[n - 1])
    }
}

/// The distinct concealed tiles, in hand order.
pub fn unique_concealed_tiles(hand: &Hand) -> (v: Vec<Tile>)
    ensures
        v@ == distinct_upto(hand.concealed@, hand.concealed@.len() as int),
{
    let tiles = hand.concealed.tiles();
    let mut v: Vec<Tile> = Vec::new();
    let mut i: usize = 0;
    while i < tiles.len()
        invariant
            i <= tiles@.len(),
            tiles@ == hand.concealed@,
            v@ == distinct_upto(tiles@, i as int),
            forall|t: Tile| v@.contains(t) <==> tiles@.take(i as int).contains(t),
        decreases tiles@.len() - i,
    {
        let t = tiles[i];
        let found = crate::hand::find_tile(v.as_slice(), t);
        let seen = found.is_some();
        let ghost old_v = v@;
        let ghost pre = tiles@.take(i as int);
        let ghost post = tiles@.take(i + 1);
        proof {
            assert(post =~= pre.push(t));
            if let Some(k) = found {
                assert(old_v[k as int] == t);
                assert(old_v.contains(t));
            }
            assert(seen == old_v.contains(t));
            assert(seen == pre.contains(t));
            assert(tiles@[i as int] == t);
            assert(tiles@.take((i + 1) - 1) =~= pre);
        }
        if !seen {
            v.push(t);
        }
        proof {
            assert(v@ == distinct_upto(tiles@, i + 1));
            assert forall|x: Tile| v@.contains(x) <==> post.contains(x) by {
                if v@.contains(x) {
                    let k = choose|k: int| 0 <= k < v@.len() && #[trigger] v@[k] == x;
                    if k < old_v.len() {
                        assert(old_v[k] == x);
                        assert(old_v.contains(x));
                        assert(pre.contains(x));
                        let m = choose|m: int| 0 <= m < pre.len() && #[trigger] pre[m] == x;
                        assert(post[m] == x);
                    } else {
                        assert(x == t);
                        assert(post[i as int] == t);
                    }
                }
                if post.contains(x) {
                    let k = choose|k: int| 0 <= k < post.len() && #[trigger] post[k] == x;
                    if k < i {
                        assert(pre[k] == x);
                        assert(pre.contains(x));
                        assert(old_v.contains(x));
                        let m = choose|m: int| 0 <= m < old_v.len() && #[trigger] old_v[m] == x;
                        assert(v@[m] == x);
                    } else {
                        assert(x == t);
                        if seen {
                            let m = choose|m: int| 0 <= m < old_v.len() && #[trigger] old_v[m] == x;
                            assert(v@[m] == x);
                        } else {
                            assert(v@[old_v.len() as int] == x);
                        }
                    }
                }
            }
        }
        i = i + 1;
    }
    v
}

/// The hand with the first `discard` taken out of its concealed tiles, when the result is a
/// hand shape the engine accepts.
pub fn hand_after_discard(hand: &Hand, discard: Tile) -> (r: Option<Hand>)
    ensures
        r is Some <==> hand.concealed@.contains(discard) && hand_shape_ok((hand.concealed@.len() - 1) as nat, hand.melds@.len()),
        r matches Some(h) ==> h.concealed@ == remove_first(hand.concealed@, discard) && h.melds@.len() == hand.melds@.len()
            && h.concealed@.len() == hand.concealed@.len() - 1
            && forall|i: int| 0 <= i < hand.melds@.len() ==> (#[trigger] h.melds@[i]).kind == hand.melds@[i].kind
                && h.melds@[i].tiles@ == hand.melds@[i].tiles@ && h.melds@[i].called == hand.melds@[i].called,
{
    let copy = hand.duplicate();
    let mut concealed = copy.concealed;
    match concealed.remove(discard) {
        Ok(()) => {},
        Err(_) => {
            return None;
        },
    }
    proof {
        assert(concealed@.len() == hand.concealed@.len() - 1) by {
            assert(concealed@.to_multiset().len() == concealed@.len());
            assert(hand.concealed@.to_multiset().len() == hand.concealed@.len());
        }
    }
    match Hand::new(concealed, copy.melds) {
        Ok(h) => Some(h),
        Err(_) => None,
    }
}

/// Whether a ron on the current window would rob a kakan.
fn chankan_timing(state: &HandState, win_type: WinType) -> (f: WinTimingFlags)
    ensures
        f.is_chankan == (win_type is Ron && (state.reaction matches Some(r) && r.kind == ReactionKind::Kakan)),
{
    let window = match state.reaction {
        Some(r) => r.kind == ReactionKind::Kakan,
        None => false,
    };
    WinTimingFlags { is_chankan: matches!(win_type, WinType::Ron { .. }) && window }
}

/// A path built from a scored win.
pub fn from_scoring_result(result: ScoringResult, shanten: i8, wait_count: usize, win_tile: Option<Tile>) -> (p: Recommendation)
    requires
        result.winner < 4,
    ensures
        p.shanten == shanten,
        p.wait_count == wait_count,
        p.win_tile == win_tile,
        p.yaku == result.yaku,
        p.han == result.han,
        p.fu == result.fu,
        p.dora == result.dora,
        p.ura_dora == result.ura_dora,
        p.aka_dora == result.aka_dora,
        p.expected_points == result.deltas@[result.winner as int],
        p.win_type == result.win_type,
{
    let points = result.deltas[result.winner];
    Recommendation {
        shanten,
        wait_count,
        win_tile,
        yaku: result.yaku,
        han: result.han,
        fu: result.fu,
        dora: result.dora,
        ura_dora: result.ura_dora,
        aka_dora: result.aka_dora,
        expected_points: points,
        win_type: result.win_type,
    }
}

/// A path's identity for de-duplication: shanten, win type, han, fu and yaku.
pub open spec fn same_path(a: Recommendation, b: Recommendation) -> bool {
    a.shanten == b.shanten && a.win_type == b.win_type && a.han == b.han && a.fu == b.fu && a.yaku@ == b.yaku@
}

fn same_yaku(a: &Vec<Yaku>, b: &Vec<Yaku>) -> (r: bool)
    ensures
        r == (a@ == b@),
{
    if a.len() != b.len() {
        return false;
    }
    let mut i: usize = 0;
    while i < a.len()
        invariant
            i <= a@.len(),
            a@.len() == b@.len(),
            forall|k: int| 0 <= k < i ==> a@[k] == b@[k],
        decreases a@.len() - i,
    {
        if a[i] != b[i] {
            return false;
        }
        i = i + 1;
    }
    assert(a@ =~= b@);
    true
}

fn same_path_exec(a: &Recommendation, b: &Recommendation) -> (r: bool)
    ensures
        r == same_path(*a, *b),
{
    a.shanten == b.shanten && a.win_type == b.win_type && a.han == b.han && a.fu == b.fu && same_yaku(&a.yaku, &b.yaku)
}

/// Each of the first `n` paths of `orig` has a path of the same identity in `out`.
pub open spec fn kept_all(orig: Seq<Recommendation>, n: int, out: Seq<Recommendation>) -> bool {
    forall|i: int| 0 <= i < n ==> exists|j: int| 0 <= j < out.len() && same_path(#[trigger] orig[i], out[j])
}

/// Keeps the first path of each identity, in order.
pub fn dedupe(paths: Vec<Recommendation>) -> (out: Vec<Recommendation>)
    ensures
        forall|i: int, j: int| 0 <= i < j < out@.len() ==> !same_path(out@[i], out@[j]),
        forall|i: int| 0 <= i < out@.len() ==> paths@.contains(#[trigger] out@[i]),
        kept_all(paths@, paths@.len() as int, out@),
{
    let mut paths = paths;
    let ghost orig = paths@;
    let mut out: Vec<Recommendation> = Vec::new();
    let mut n: usize = 0;
    let total = paths.len();
    while paths.len() > 0
        invariant
            paths@.len() + n == total,
            total == orig.len(),
            paths@ == orig.skip(n as int),
            forall|i: int, j: int| 0 <= i < j < out@.len() ==> !same_path(out@[i], out@[j]),
            forall|i: int| 0 <= i < out@.len() ==> orig.contains(#[trigger] out@[i]),
            kept_all(orig, n as int, out@),
        decreases paths@.len(),
    {
        let p = paths.remove(0);
        proof {
            assert(orig[n as int] == p);
            assert(paths@ =~= orig.skip(n + 1));
        }
        let mut seen = false;
        let mut k: usize = 0;
        while k < out.len()
            invariant
                k <= out@.len(),
                seen ==> exists|j: int| 0 <= j < out@.len() && same_path(p, out@[j]),
                !seen ==> forall|j: int| 0 <= j < k ==> !same_path(out@[j], p),
            decreases out@.len() - k,
        {
            if same_path_exec(&out[k], &p) {
                seen = true;
            }
            k = k + 1;
        }
        if !seen {
            let ghost before = out@;
            out.push(p);
            proof {
                assert forall|i: int| 0 <= i < n + 1 implies exists|j: int| 0 <= j < out@.len() && same_path(#[trigger] orig[i], out@[j]) by {
                    if i == n {
                        assert(same_path(orig[i], out@[before.len() as int]));
                    } else {
                        let j0 = choose|j: int| 0 <= j < before.len() && same_path(orig[i], before[j]);
                        assert(out@[j0] == before[j0]);
                    }
                }
                assert(kept_all(orig, n + 1, out@));
                assert forall|i: int| 0 <= i < out@.len() implies orig.contains(#[trigger] out@[i]) by {
                    if i == before.len() {
                        assert(orig[n as int] == out@[i]);
                    } else {
                        assert(out@[i] == before[i]);
                    }
                }
            }
        } else {
            proof {
                assert forall|i: int| 0 <= i < n + 1 implies exists|j: int| 0 <= j < out@.len() && same_path(#[trigger] orig[i], out@[j]) by {
                    if i == n {
                        let j0 = choose|j: int| 0 <= j < out@.len() && same_path(p, out@[j]);
                        assert(same_path(orig[i], out@[j0]));
                    }
                }
                assert(kept_all(orig, n + 1, out@));
            }
        }
        n = n + 1;
    }
    proof {
        assert(n == orig.len());
        assert(kept_all(orig, n as int, out@));
    }
    out
}

/// `p` carries the scoring of the win `ctx`: its yaku, dora counts, han and fu as the rules
/// score them, and what the winner collects.
pub open spec fn scored_as(ctx: &WinContext, config: RulesConfig, p: Recommendation) -> bool {
    let full = super::win::full_hand(*ctx.hand, ctx.win_tile, ctx.win_type);
    let kans = ctx.state.wall.kans();
    &&& p.yaku@ == super::yaku::yaku_of(ctx)
    &&& p.dora == super::dora::dora_hits(full, super::dora::indicators_of(ctx.state.wall.dead_seq(), kans as nat, 0), kans + 1)
    &&& p.ura_dora == (if ctx.state.riichi@[ctx.winner as int] {
        super::dora::dora_hits(full, super::dora::indicators_of(ctx.state.wall.dead_seq(), kans as nat, 1), kans + 1)
    } else {
        0
    })
    &&& p.aka_dora == (if config.aka_dora { super::dora::red_count(full) } else { 0 })
    &&& p.han == super::win_han(super::yaku::yaku_of(ctx), ctx.hand.melds@.len() > 0, p.dora as nat, p.ura_dora as nat, p.aka_dora as nat)
    &&& super::fu::fu_ok(ctx, super::yaku::yaku_of(ctx), config, p.fu)
    &&& p.expected_points == super::score::win_delta(
        base_points_spec(p.han, p.fu),
        ctx.winner as int,
        ctx.state.dealer as int,
        ctx.win_type,
        ctx.state.honba as int,
        ctx.state.table_riichi_sticks as int,
        ctx.winner as int,
    )
}

/// The win of `seat` by `win_type` on `win_tile`, completing `hand`.
pub open spec fn win_ctx<'a>(state: &'a HandState, hand: &'a Hand, seat: usize, win_type: WinType, win_tile: Tile) -> WinContext<'a> {
    WinContext {
        state,
        hand,
        winner: seat,
        win_type,
        win_tile,
        is_haitei: haitei_win(*state, win_type),
        is_houtei: houtei_win(*state, win_type),
        is_rinshan: rinshan_win(*state, win_type),
        is_chankan: win_type is Ron && (state.reaction matches Some(r) && r.kind == ReactionKind::Kakan),
    }
}

/// The win a path of `seat` stands for, with `hand` the hand that completes it.
pub open spec fn path_ctx<'a>(state: &'a HandState, hand: &'a Hand, seat: usize, p: Recommendation) -> WinContext<'a> {
    win_ctx(state, hand, seat, p.win_type, p.win_tile->0)
}

/// `p` has the identity of the win `ctx` listed with shanten `sh`: its yaku, han and fu.
#[verifier::opaque]
pub open spec fn identity_of(ctx: &WinContext, config: RulesConfig, sh: i8, p: Recommendation) -> bool {
    let full = super::win::full_hand(*ctx.hand, ctx.win_tile, ctx.win_type);
    let kans = ctx.state.wall.kans();
    let dora = super::dora::dora_hits(full, super::dora::indicators_of(ctx.state.wall.dead_seq(), kans as nat, 0), kans + 1);
    let ura = if ctx.state.riichi@[ctx.winner as int] {
        super::dora::dora_hits(full, super::dora::indicators_of(ctx.state.wall.dead_seq(), kans as nat, 1), kans + 1)
    } else {
        0
    };
    let aka = if config.aka_dora { super::dora::red_count(full) } else { 0 };
    &&& p.shanten == sh
    &&& p.win_type == ctx.win_type
    &&& p.yaku@ == super::yaku::yaku_of(ctx)
    &&& p.han == super::win_han(super::yaku::yaku_of(ctx), ctx.hand.melds@.len() > 0, dora, ura, aka)
    &&& super::fu::fu_ok(ctx, super::yaku::yaku_of(ctx), config, p.fu)
}

/// `ps` lists a path with the identity of the win `ctx` at shanten `sh`.
pub open spec fn listed(ps: Seq<Recommendation>, ctx: &WinContext, config: RulesConfig, sh: i8) -> bool {
    exists|j: int| 0 <= j < ps.len() && #[trigger] identity_of(ctx, config, sh, ps[j])
}

/// `ps` lists a path with the identity of each win on the wait `t` of `seat` with hand `h`:
/// by tsumo and by ron from every other seat.
pub open spec fn wait_covered(ps: Seq<Recommendation>, state: &HandState, h: &Hand, seat: usize, config: RulesConfig, t: Tile) -> bool {
    &&& listed(ps, &win_ctx(state, h, seat, WinType::Tsumo, t), config, 0)
    &&& forall|from: usize|
        from < 4 && from != seat ==> #[trigger] listed(ps, &win_ctx(state, h, seat, WinType::Ron { from }, t), config, 0)
}

/// The first `n` waits of `ws` are covered by `ps`.
pub open spec fn waits_covered(ps: Seq<Recommendation>, state: &HandState, h: &Hand, seat: usize, config: RulesConfig, ws: Seq<Tile>, n: int) -> bool {
    forall|k: int| 0 <= k < n ==> #[trigger] wait_covered(ps, state, h, seat, config, ws[k])
}

/// A path scored as the win `ctx` has that win's identity.
proof fn lemma_scored_identity(ctx: &WinContext, config: RulesConfig, sh: i8, p: Recommendation)
    requires
        scored_as(ctx, config, p),
        p.shanten == sh,
        p.win_type == ctx.win_type,
    ensures
        identity_of(ctx, config, sh, p),
{
    reveal(identity_of);
}

proof fn lemma_listed_push(ps: Seq<Recommendation>, x: Recommendation, ctx: &WinContext, config: RulesConfig, sh: i8)
    requires
        listed(ps, ctx, config, sh),
    ensures
        listed(ps.push(x), ctx, config, sh),
{
    let j = choose|j: int| 0 <= j < ps.len() && #[trigger] identity_of(ctx, config, sh, ps[j]);
    assert(ps.push(x)[j] == ps[j]);
}

proof fn lemma_covered_push(
    ps: Seq<Recommendation>,
    x: Recommendation,
    state: &HandState,
    h: &Hand,
    seat: usize,
    config: RulesConfig,
    ws: Seq<Tile>,
    n: int,
)
    requires
        waits_covered(ps, state, h, seat, config, ws, n),
    ensures
        waits_covered(ps.push(x), state, h, seat, config, ws, n),
{
    assert forall|k: int| 0 <= k < n implies #[trigger] wait_covered(ps.push(x), state, h, seat, config, ws[k]) by {
        assert(wait_covered(ps, state, h, seat, config, ws[k]));
        lemma_listed_push(ps, x, &win_ctx(state, h, seat, WinType::Tsumo, ws[k]), config, 0);
        assert forall|from: usize| from < 4 && from != seat implies #[trigger] listed(
            ps.push(x),
            &win_ctx(state, h, seat, WinType::Ron { from }, ws[k]),
            config,
            0,
        ) by {
            assert(listed(ps, &win_ctx(state, h, seat, WinType::Ron { from }, ws[k]), config, 0));
            lemma_listed_push(ps, x, &win_ctx(state, h, seat, WinType::Ron { from }, ws[k]), config, 0);
        }
    }
}

/// Listing the tsumo win on the wait `t` keeps what was listed and adds it.
proof fn lemma_tsumo_listed(
    ps: Seq<Recommendation>,
    p: Recommendation,
    state: &HandState,
    h: &Hand,
    seat: usize,
    config: RulesConfig,
    ws: Seq<Tile>,
    n: int,
    t: Tile,
)
    requires
        waits_covered(ps, state, h, seat, config, ws, n),
        identity_of(&win_ctx(state, h, seat, WinType::Tsumo, t), config, 0, p),
    ensures
        waits_covered(ps.push(p), state, h, seat, config, ws, n),
        listed(ps.push(p), &win_ctx(state, h, seat, WinType::Tsumo, t), config, 0),
{
    lemma_covered_push(ps, p, state, h, seat, config, ws, n);
    assert(ps.push(p)[ps.len() as int] == p);
}

/// Discarding `d` from `h` leaves a tenpai hand of a valid shape.
pub open spec fn keeps_tenpai(h: Hand, d: Tile) -> bool {
    &&& h.concealed@.contains(d)
    &&& hand_shape_ok((h.concealed@.len() - 1) as nat, h.melds@.len())
    &&& tenpai_with(remove_first(h.concealed@, d), h.melds@.len())
}

/// `ps` lists, for each of the first `n` waits of `after`, a path of shanten 1 with the
/// identity of the tsumo win on it.
pub open spec fn after_waits_listed(ps: Seq<Recommendation>, state: &HandState, after: &Hand, seat: usize, config: RulesConfig, n: int) -> bool {
    forall|k: int| 0 <= k < n ==> #[trigger] listed(ps, &win_ctx(state, after, seat, WinType::Tsumo, waits_of(*after)[k]), config, 1)
}

/// `ps` lists every wait of the hand left by discarding `d` from `h`.
pub open spec fn discard_covered(ps: Seq<Recommendation>, state: &HandState, h: Hand, seat: usize, config: RulesConfig, d: Tile) -> bool {
    exists|after: Hand|
        #[trigger] same_melds(after, h) && after.concealed@ == remove_first(h.concealed@, d) && after_waits_listed(
            ps,
            state,
            &after,
            seat,
            config,
            waits_of(after).len() as int,
        )
}

/// Of the first `n` tiles of `ds`, every one whose discard keeps `h` tenpai is covered.
pub open spec fn discards_covered(ps: Seq<Recommendation>, state: &HandState, h: Hand, seat: usize, config: RulesConfig, ds: Seq<Tile>, n: int) -> bool {
    forall|m: int| 0 <= m < n && keeps_tenpai(h, ds[m]) ==> #[trigger] discard_covered(ps, state, h, seat, config, ds[m])
}

proof fn lemma_after_listed_push(ps: Seq<Recommendation>, x: Recommendation, state: &HandState, after: &Hand, seat: usize, config: RulesConfig, n: int)
    requires
        after_waits_listed(ps, state, after, seat, config, n),
    ensures
        after_waits_listed(ps.push(x), state, after, seat, config, n),
{
    assert forall|k: int| 0 <= k < n implies #[trigger] listed(ps.push(x), &win_ctx(state, after, seat, WinType::Tsumo, waits_of(*after)[k]), config, 1) by {
        lemma_listed_push(ps, x, &win_ctx(state, after, seat, WinType::Tsumo, waits_of(*after)[k]), config, 1);
    }
}

proof fn lemma_discards_covered_push(
    ps: Seq<Recommendation>,
    x: Recommendation,
    state: &HandState,
    h: Hand,
    seat: usize,
    config: RulesConfig,
    ds: Seq<Tile>,
    n: int,
)
    requires
        discards_covered(ps, state, h, seat, config, ds, n),
    ensures
        discards_covered(ps.push(x), state, h, seat, config, ds, n),
{
    assert forall|m: int| 0 <= m < n && keeps_tenpai(h, ds[m]) implies #[trigger] discard_covered(ps.push(x), state, h, seat, config, ds[m]) by {
        assert(discard_covered(ps, state, h, seat, config, ds[m]));
        let after = choose|after: Hand|
            #[trigger] same_melds(after, h) && after.concealed@ == remove_first(h.concealed@, ds[m]) && after_waits_listed(
                ps,
                state,
                &after,
                seat,
                config,
                waits_of(after).len() as int,
            );
        lemma_after_listed_push(ps, x, state, &after, seat, config, waits_of(after).len() as int);
    }
}

/// Listing the tsumo win on the `j`-th wait of the hand after a discard.
proof fn lemma_after_wait_listed(
    ps: Seq<Recommendation>,
    p: Recommendation,
    state: &HandState,
    h: Hand,
    after: Hand,
    seat: usize,
    config: RulesConfig,
    ds: Seq<Tile>,
    i: int,
    j: int,
)
    requires
        0 <= j < waits_of(after).len(),
        discards_covered(ps, state, h, seat, config, ds, i),
        after_waits_listed(ps, state, &after, seat, config, j),
        scored_as(&win_ctx(state, &after, seat, WinType::Tsumo, waits_of(after)[j]), config, p),
        p.shanten == 1,
        p.win_type == WinType::Tsumo,
    ensures
        discards_covered(ps.push(p), state, h, seat, config, ds, i),
        after_waits_listed(ps.push(p), state, &after, seat, config, j + 1),
{
    lemma_scored_identity(&win_ctx(state, &after, seat, WinType::Tsumo, waits_of(after)[j]), config, 1, p);
    lemma_discards_covered_push(ps, p, state, h, seat, config, ds, i);
    lemma_after_listed_push(ps, p, state, &after, seat, config, j);
    assert(ps.push(p)[ps.len() as int] == p);
    assert forall|k: int| 0 <= k < j + 1 implies #[trigger] listed(ps.push(p), &win_ctx(state, &after, seat, WinType::Tsumo, waits_of(after)[k]), config, 1) by {
        if k < j {
            assert(listed(ps.push(p), &win_ctx(state, &after, seat, WinType::Tsumo, waits_of(after)[k]), config, 1));
        }
    }
}

/// A discard that does not keep the hand tenpai, or whose waits are all listed, is covered.
proof fn lemma_discard_done(
    ps: Seq<Recommendation>,
    state: &HandState,
    h: Hand,
    after: Hand,
    seat: usize,
    config: RulesConfig,
    ds: Seq<Tile>,
    i: int,
)
    requires
        0 <= i < ds.len(),
        discards_covered(ps, state, h, seat, config, ds, i),
        keeps_tenpai(h, ds[i]) ==> same_melds(after, h) && after.concealed@ == remove_first(h.concealed@, ds[i])
            && after_waits_listed(ps, state, &after, seat, config, waits_of(after).len() as int),
    ensures
        discards_covered(ps, state, h, seat, config, ds, i + 1),
{
    assert forall|m: int| 0 <= m < i + 1 && keeps_tenpai(h, ds[m]) implies #[trigger] discard_covered(ps, state, h, seat, config, ds[m]) by {
        if m == i {
            assert(same_melds(after, h));
        }
    }
}

proof fn lemma_listed_kept(pv: Seq<Recommendation>, out: Seq<Recommendation>, ctx: &WinContext, config: RulesConfig, sh: i8)
    requires
        listed(pv, ctx, config, sh),
        kept_all(pv, pv.len() as int, out),
    ensures
        listed(out, ctx, config, sh),
{
    let j0 = choose|j: int| 0 <= j < pv.len() && #[trigger] identity_of(ctx, config, sh, pv[j]);
    let j = choose|j: int| 0 <= j < out.len() && same_path(#[trigger] pv[j0], out[j]);
    assert(identity_of(ctx, config, sh, out[j])) by {
        reveal(identity_of);
    }
}

proof fn lemma_discard_covered_kept(pv: Seq<Recommendation>, out: Seq<Recommendation>, state: &HandState, h: Hand, seat: usize, config: RulesConfig, d: Tile)
    requires
        discard_covered(pv, state, h, seat, config, d),
        kept_all(pv, pv.len() as int, out),
    ensures
        discard_covered(out, state, h, seat, config, d),
{
    let after = choose|after: Hand|
        #[trigger] same_melds(after, h) && after.concealed@ == remove_first(h.concealed@, d) && after_waits_listed(
            pv,
            state,
            &after,
            seat,
            config,
            waits_of(after).len() as int,
        );
    assert forall|k: int| 0 <= k < waits_of(after).len() implies #[trigger] listed(out, &win_ctx(state, &after, seat, WinType::Tsumo, waits_of(after)[k]), config, 1) by {
        assert(listed(pv, &win_ctx(state, &after, seat, WinType::Tsumo, waits_of(after)[k]), config, 1));
        lemma_listed_kept(pv, out, &win_ctx(state, &after, seat, WinType::Tsumo, waits_of(after)[k]), config, 1);
    }
    assert(same_melds(after, h));
}

/// Every tile of the first `n` of `s` is among its distinct tiles.
proof fn lemma_distinct_complete(s: Seq<Tile>, n: int, d: Tile)
    requires
        0 <= n <= s.len(),
        s.take(n).contains(d),
    ensures
        distinct_upto(s, n).contains(d),
    decreases n,
{
    if n > 0 {
        if s[n - 1] == d {
            if s.take(n - 1).contains(s[n - 1]) {
                lemma_distinct_complete(s, n - 1, d);
            } else {
                assert(distinct_upto(s, n).last() == d);
            }
        } else {
            let tk = s.take(n);
            let k = choose|k: int| 0 <= k < tk.len() && #[trigger] tk[k] == d;
            assert(s.take(n - 1)[k] == d);
            lemma_distinct_complete(s, n - 1, d);
            assert(distinct_upto(s, n - 1).contains(d));
            let ds = distinct_upto(s, n - 1);
            let q = choose|q: int| 0 <= q < ds.len() && #[trigger] ds[q] == d;
            if !s.take(n - 1).contains(s[n - 1]) {
                assert(distinct_upto(s, n)[q] == d);
            }
        }
    }
}

/// `ps` lists, for each of the first `n` waits of `h`, a path at shanten `sh` with the
/// identity of the tsumo win on it.
pub open spec fn waits_listed(ps: Seq<Recommendation>, state: &HandState, h: &Hand, seat: usize, config: RulesConfig, sh: i8, n: int) -> bool {
    forall|k: int| 0 <= k < n ==> #[trigger] listed(ps, &win_ctx(state, h, seat, WinType::Tsumo, waits_of(*h)[k]), config, sh)
}

proof fn lemma_waits_listed_push(ps: Seq<Recommendation>, x: Recommendation, state: &HandState, h: &Hand, seat: usize, config: RulesConfig, sh: i8, n: int)
    requires
        waits_listed(ps, state, h, seat, config, sh, n),
    ensures
        waits_listed(ps.push(x), state, h, seat, config, sh, n),
{
    assert forall|k: int| 0 <= k < n implies #[trigger] listed(ps.push(x), &win_ctx(state, h, seat, WinType::Tsumo, waits_of(*h)[k]), config, sh) by {
        lemma_listed_push(ps, x, &win_ctx(state, h, seat, WinType::Tsumo, waits_of(*h)[k]), config, sh);
    }
}

/// Listing the tsumo win on the `j`-th wait at shanten `sh`.
proof fn lemma_wait_listed_next(ps: Seq<Recommendation>, p: Recommendation, state: &HandState, h: &Hand, seat: usize, config: RulesConfig, sh: i8, j: int)
    requires
        0 <= j < waits_of(*h).len(),
        waits_listed(ps, state, h, seat, config, sh, j),
        scored_as(&win_ctx(state, h, seat, WinType::Tsumo, waits_of(*h)[j]), config, p),
        p.shanten == sh,
        p.win_type == WinType::Tsumo,
    ensures
        waits_listed(ps.push(p), state, h, seat, config, sh, j + 1),
{
    lemma_scored_identity(&win_ctx(state, h, seat, WinType::Tsumo, waits_of(*h)[j]), config, sh, p);
    lemma_waits_listed_push(ps, p, state, h, seat, config, sh, j);
    assert(ps.push(p)[ps.len() as int] == p);
    assert forall|k: int| 0 <= k < j + 1 implies #[trigger] listed(ps.push(p), &win_ctx(state, h, seat, WinType::Tsumo, waits_of(*h)[k]), config, sh) by {
        if k < j {
            assert(listed(ps.push(p), &win_ctx(state, h, seat, WinType::Tsumo, waits_of(*h)[k]), config, sh));
        }
    }
}

proof fn lemma_waits_listed_kept(pv: Seq<Recommendation>, out: Seq<Recommendation>, state: &HandState, h: &Hand, seat: usize, config: RulesConfig, sh: i8, n: int)
    requires
        waits_listed(pv, state, h, seat, config, sh, n),
        kept_all(pv, pv.len() as int, out),
    ensures
        waits_listed(out, state, h, seat, config, sh, n),
{
    assert forall|k: int| 0 <= k < n implies #[trigger] listed(out, &win_ctx(state, h, seat, WinType::Tsumo, waits_of(*h)[k]), config, sh) by {
        lemma_listed_kept(pv, out, &win_ctx(state, h, seat, WinType::Tsumo, waits_of(*h)[k]), config, sh);
    }
}

/// A wait listed by tsumo and by ron from every other seat is covered.
proof fn lemma_wait_done(
    ps: Seq<Recommendation>,
    state: &HandState,
    h: &Hand,
    seat: usize,
    config: RulesConfig,
    ws: Seq<Tile>,
    n: int,
)
    requires
        0 <= n < ws.len(),
        waits_covered(ps, state, h, seat, config, ws, n),
        listed(ps, &win_ctx(state, h, seat, WinType::Tsumo, ws[n]), config, 0),
        forall|f: usize| f < 4 && f != seat ==> #[trigger] listed(ps, &win_ctx(state, h, seat, WinType::Ron { from: f }, ws[n]), config, 0),
    ensures
        waits_covered(ps, state, h, seat, config, ws, n + 1),
{
    assert(wait_covered(ps, state, h, seat, config, ws[n]));
    assert forall|k: int| 0 <= k < n + 1 implies #[trigger] wait_covered(ps, state, h, seat, config, ws[k]) by {
        if k < n {
            assert(wait_covered(ps, state, h, seat, config, ws[k]));
        }
    }
}

/// Listing the ron win from `from` on the wait `t` keeps what was listed and adds it.
proof fn lemma_ron_listed(
    ps: Seq<Recommendation>,
    p: Recommendation,
    state: &HandState,
    h: &Hand,
    seat: usize,
    config: RulesConfig,
    ws: Seq<Tile>,
    n: int,
    t: Tile,
    from: usize,
)
    requires
        waits_covered(ps, state, h, seat, config, ws, n),
        listed(ps, &win_ctx(state, h, seat, WinType::Tsumo, t), config, 0),
        forall|f: usize| f < from && f != seat ==> #[trigger] listed(ps, &win_ctx(state, h, seat, WinType::Ron { from: f }, t), config, 0),
        identity_of(&win_ctx(state, h, seat, WinType::Ron { from }, t), config, 0, p),
    ensures
        waits_covered(ps.push(p), state, h, seat, config, ws, n),
        listed(ps.push(p), &win_ctx(state, h, seat, WinType::Tsumo, t), config, 0),
        forall|f: usize| f <= from && f != seat ==> #[trigger] listed(ps.push(p), &win_ctx(state, h, seat, WinType::Ron { from: f }, t), config, 0),
{
    lemma_covered_push(ps, p, state, h, seat, config, ws, n);
    lemma_listed_push(ps, p, &win_ctx(state, h, seat, WinType::Tsumo, t), config, 0);
    assert forall|f: usize| f <= from && f != seat implies #[trigger] listed(
        ps.push(p),
        &win_ctx(state, h, seat, WinType::Ron { from: f }, t),
        config,
        0,
    ) by {
        if f < from {
            lemma_listed_push(ps, p, &win_ctx(state, h, seat, WinType::Ron { from: f }, t), config, 0);
        } else {
            assert(ps.push(p)[ps.len() as int] == p);
        }
    }
}

proof fn lemma_covered_kept(
    pv: Seq<Recommendation>,
    out: Seq<Recommendation>,
    state: &HandState,
    h: &Hand,
    seat: usize,
    config: RulesConfig,
    ws: Seq<Tile>,
    n: int,
)
    requires
        waits_covered(pv, state, h, seat, config, ws, n),
        kept_all(pv, pv.len() as int, out),
    ensures
        waits_covered(out, state, h, seat, config, ws, n),
{
    assert forall|k: int| 0 <= k < n implies #[trigger] wait_covered(out, state, h, seat, config, ws[k]) by {
        assert(wait_covered(pv, state, h, seat, config, ws[k]));
        let c = win_ctx(state, h, seat, WinType::Tsumo, ws[k]);
        let j0 = choose|j: int| 0 <= j < pv.len() && #[trigger] identity_of(&c, config, 0, pv[j]);
        let j = choose|j: int| 0 <= j < out.len() && same_path(#[trigger] pv[j0], out[j]);
        assert(identity_of(&c, config, 0, out[j])) by {
            reveal(identity_of);
        }
        assert forall|from: usize| from < 4 && from != seat implies #[trigger] listed(
            out,
            &win_ctx(state, h, seat, WinType::Ron { from }, ws[k]),
            config,
            0,
        ) by {
            let c2 = win_ctx(state, h, seat, WinType::Ron { from }, ws[k]);
            assert(listed(pv, &c2, config, 0));
            let j1 = choose|j: int| 0 <= j < pv.len() && #[trigger] identity_of(&c2, config, 0, pv[j]);
            let j2 = choose|j: int| 0 <= j < out.len() && same_path(#[trigger] pv[j1], out[j]);
            assert(identity_of(&c2, config, 0, out[j2])) by {
                reveal(identity_of);
            }
        }
    }
}

/// The win of `ctx` as a path, when the hand wins.
fn scored_path(ctx: &WinContext, config: &RulesConfig, shanten: i8, wait_count: usize) -> (r: Option<Recommendation>)
    requires
        ctx.wf(),
        hand_sizes_ok(*ctx.hand),
        ctx.win_type matches WinType::Ron { from } ==> from < 4,
    ensures
        r is Some <==> winning_hand(*ctx.hand, Some(ctx.win_tile)),
        r matches Some(p) ==> p.shanten == shanten && p.wait_count == wait_count && p.win_tile == Some(ctx.win_tile)
            && p.win_type == ctx.win_type && scored_as(ctx, *config, p),
{
    let rules = StandardRules;
    if !rules.can_win(ctx, config) {
        return None;
    }
    proof {
        super::win::lemma_winning_len(*ctx.hand, Some(ctx.win_tile));
    }
    let result = rules.score_win(ctx, config);
    Some(from_scoring_result(result, shanten, wait_count, Some(ctx.win_tile)))
}

/// What every listed path is: a win now (−1), a wait of the tenpai hand by tsumo or by ron
/// from another seat (0), or a wait after a discard that keeps tenpai (1); each names a tile
/// that completes its hand.
pub open spec fn path_ok(h: Hand, seat: int, p: Recommendation) -> bool {
    &&& p.win_tile is Some
    &&& {
        let t = p.win_tile->0;
        ||| (p.shanten == -1 && p.win_type is Tsumo && p.wait_count == 0 && winning_hand(h, None) && winning_hand(h, Some(t)))
        ||| (p.shanten == 0 && tenpai_hand(h) && winning_hand(h, Some(t)) && p.wait_count == waits_of(h).len() && (p.win_type is Tsumo
            || (p.win_type matches WinType::Ron { from } && from < 4 && from != seat)))
        ||| (p.shanten == 1 && p.win_type is Tsumo && h.concealed@.len() % 3 == 2 && !winning_hand(h, None) && exists|d: Tile|
            #[trigger] h.concealed@.contains(d) && tenpai_with(remove_first(h.concealed@, d), h.melds@.len()) && wins_with(
                remove_first(h.concealed@, d),
                h.melds@.len(),
                Some(t),
            ))
    }
}

/// `a` holds the melds of `b`: the same kinds, tiles and claimed tiles, in order.
pub open spec fn same_melds(a: Hand, b: Hand) -> bool {
    &&& a.melds@.len() == b.melds@.len()
    &&& forall|i: int| 0 <= i < b.melds@.len() ==> (#[trigger] a.melds@[i]).kind == b.melds@[i].kind
        && a.melds@[i].tiles@ == b.melds@[i].tiles@ && a.melds@[i].called == b.melds@[i].called
}

/// Every listed path of `seat` is scored as its win: with the seat's hand for a win now or a
/// wait, with the hand after the discard for a wait after a discard.
pub open spec fn path_scored(state: &HandState, seat: usize, config: RulesConfig, p: Recommendation) -> bool {
    let h = state.hands@[seat as int];
    if p.shanten == 1 {
        exists|d: Tile, after: Hand|
            #![trigger scored_as(&path_ctx(state, &after, seat, p), config, p), h.concealed@.contains(d)]
            h.concealed@.contains(d) && after.concealed@ == remove_first(h.concealed@, d) && same_melds(after, h)
                && scored_as(&path_ctx(state, &after, seat, p), config, p)
    } else {
        scored_as(&path_ctx(state, &h, seat, p), config, p)
    }
}

/// What `collect` lists for `seat`: paths of the kinds `path_ok` allows, each scored as its
/// win, one per identity; for a hand that wins now, the win on each of its tiles; for a tenpai
/// hand, each wait by tsumo and by ron from every other seat; for a hand one discard from
/// tenpai, each wait after each discard that keeps it tenpai.
pub open spec fn collected(state: &HandState, seat: usize, config: RulesConfig, paths: Seq<Recommendation>) -> bool {
    &&& forall|i: int| 0 <= i < paths.len() ==> path_ok(state.hands@[seat as int], seat as int, #[trigger] paths[i])
    &&& forall|i: int| 0 <= i < paths.len() ==> path_scored(state, seat, config, #[trigger] paths[i])
    &&& forall|i: int, j: int| 0 <= i < j < paths.len() ==> !same_path(paths[i], paths[j])
    &&& tenpai_hand(state.hands@[seat as int]) ==> paths.len() > 0
    &&& winning_hand(state.hands@[seat as int], None) ==> waits_listed(
        paths,
        state,
        &state.hands@[seat as int],
        seat,
        config,
        -1i8,
        waits_of(state.hands@[seat as int]).len() as int,
    )
    &&& tenpai_hand(state.hands@[seat as int]) ==> waits_covered(
        paths,
        state,
        &state.hands@[seat as int],
        seat,
        config,
        waits_of(state.hands@[seat as int]),
        waits_of(state.hands@[seat as int]).len() as int,
    )
    &&& state.hands@[seat as int].concealed@.len() % 3 == 2 && !winning_hand(state.hands@[seat as int], None) ==> forall|d: Tile|
        #[trigger] keeps_tenpai(state.hands@[seat as int], d) ==> discard_covered(
            paths,
            state,
            state.hands@[seat as int],
            seat,
            config,
            d,
        )
}

/// Scored paths toward a win for `seat`: the hand's wins now, its waits by tsumo and ron
/// when tenpai, and the waits after each discard that keeps tenpai; one path per identity.
#[verifier::rlimit(40)]
pub fn collect(state: &HandState, seat: usize, config: &RulesConfig) -> (paths: Vec<Recommendation>)
    requires
        state.wf(),
        seat < 4,
    ensures
        collected(state, seat, *config, paths@),
{
    let hand = &state.hands[seat];
    proof {
        lemma_tenpai_iff_waits(state.hands@[seat as int]);
        assert(hand_sizes_ok(*hand));
    }
    let mut paths: Vec<Recommendation> = Vec::new();
    let ghost h = *hand;
    let winning_now = is_winning_hand(hand, None);
    if winning_now {
        let waits = wait_tiles(hand);
        let mut i: usize = 0;
        while i < waits.len()
            invariant
                i <= waits@.len(),
                waits@ == waits_of(h),
                *hand == h,
                h == state.hands@[seat as int],
                state.wf(),
                seat < 4,
                hand_sizes_ok(h),
                winning_hand(h, None),
                forall|k: int| 0 <= k < paths@.len() ==> path_ok(h, seat as int, #[trigger] paths@[k]),
                forall|k: int| 0 <= k < paths@.len() ==> path_scored(state, seat, *config, #[trigger] paths@[k]),
                waits_listed(paths@, state, &h, seat, *config, -1i8, i as int),
            decreases waits@.len() - i,
        {
            let t = waits[i];
            proof {
                lemma_waits_win(h, 37, i as int);
            }
            let ctx = WinContext::with_hand(state, hand, seat, WinType::Tsumo, t, chankan_timing(state, WinType::Tsumo));
            if let Some(p) = scored_path(&ctx, config, -1, 0) {
                proof {
                    assert(ctx == path_ctx(state, &h, seat, p));
                    assert(ctx == win_ctx(state, &h, seat, WinType::Tsumo, waits_of(h)[i as int]));
                    lemma_wait_listed_next(paths@, p, state, &h, seat, *config, -1i8, i as int);
                }
                paths.push(p);
            }
            i = i + 1;
        }
    }
    if is_tenpai(hand) {
        let waits = wait_tiles(hand);
        let wait_count = waits.len();
        let mut i: usize = 0;
        while i < waits.len()
            invariant
                i <= waits@.len(),
                waits@ == waits_of(h),
                wait_count == waits@.len(),
                *hand == h,
                h == state.hands@[seat as int],
                state.wf(),
                seat < 4,
                hand_sizes_ok(h),
                tenpai_hand(h),
                i > 0 ==> paths@.len() > 0,
                waits_covered(paths@, state, &h, seat, *config, waits@, i as int),
                winning_hand(h, None) ==> waits_listed(paths@, state, &h, seat, *config, -1i8, waits_of(h).len() as int),
                forall|k: int| 0 <= k < paths@.len() ==> path_ok(h, seat as int, #[trigger] paths@[k]),
                forall|k: int| 0 <= k < paths@.len() ==> path_scored(state, seat, *config, #[trigger] paths@[k]),
            decreases waits@.len() - i,
        {
            let t = waits[i];
            proof {
                lemma_waits_win(h, 37, i as int);
            }
            let ctx = WinContext::with_hand(state, hand, seat, WinType::Tsumo, t, chankan_timing(state, WinType::Tsumo));
            if let Some(p) = scored_path(&ctx, config, 0, wait_count) {
                proof {
                    assert(ctx == path_ctx(state, &h, seat, p));
                    assert(ctx == win_ctx(state, &h, seat, WinType::Tsumo, t));
                    lemma_scored_identity(&win_ctx(state, &h, seat, WinType::Tsumo, t), *config, 0, p);
                    lemma_tsumo_listed(paths@, p, state, &h, seat, *config, waits@, i as int, t);
                    if winning_hand(h, None) {
                        lemma_waits_listed_push(paths@, p, state, &h, seat, *config, -1i8, waits_of(h).len() as int);
                    }
                }
                paths.push(p);
            }
            assert(listed(paths@, &win_ctx(state, &h, seat, WinType::Tsumo, t), *config, 0));
            let mut from: usize = 0;
            while from < 4
                invariant
                    from <= 4,
                    i < waits@.len(),
                    t == waits@[i as int],
                    winning_hand(h, Some(t)),
                    waits@ == waits_of(h),
                    wait_count == waits@.len(),
                    *hand == h,
                    h == state.hands@[seat as int],
                    state.wf(),
                    seat < 4,
                    hand_sizes_ok(h),
                    tenpai_hand(h),
                    paths@.len() > 0,
                    forall|k: int| 0 <= k < paths@.len() ==> path_ok(h, seat as int, #[trigger] paths@[k]),
                forall|k: int| 0 <= k < paths@.len() ==> path_scored(state, seat, *config, #[trigger] paths@[k]),
                    waits_covered(paths@, state, &h, seat, *config, waits@, i as int),
                    listed(paths@, &win_ctx(state, &h, seat, WinType::Tsumo, t), *config, 0),
                    winning_hand(h, None) ==> waits_listed(paths@, state, &h, seat, *config, -1i8, waits_of(h).len() as int),
                    forall|f: usize| f < from && f != seat ==> #[trigger] listed(
                        paths@,
                        &win_ctx(state, &h, seat, WinType::Ron { from: f }, t),
                        *config,
                        0,
                    ),
                decreases 4 - from,
            {
                if from != seat {
                    let wt = WinType::Ron { from };
                    let ctx = WinContext::with_hand(state, hand, seat, wt, t, chankan_timing(state, wt));
                    if let Some(p) = scored_path(&ctx, config, 0, wait_count) {
                        proof {
                            assert(ctx == path_ctx(state, &h, seat, p));
                            assert(ctx == win_ctx(state, &h, seat, wt, t));
                            lemma_scored_identity(&win_ctx(state, &h, seat, wt, t), *config, 0, p);
                            lemma_ron_listed(paths@, p, state, &h, seat, *config, waits@, i as int, t, from);
                            if winning_hand(h, None) {
                                lemma_waits_listed_push(paths@, p, state, &h, seat, *config, -1i8, waits_of(h).len() as int);
                            }
                        }
                        paths.push(p);
                    }
                    assert(listed(paths@, &win_ctx(state, &h, seat, WinType::Ron { from }, t), *config, 0));
                }
                from = from + 1;
            }
            proof {
                lemma_wait_done(paths@, state, &h, seat, *config, waits@, i as int);
            }
            i = i + 1;
        }
    }
    assert(winning_hand(h, None) ==> waits_listed(paths@, state, &h, seat, *config, -1i8, waits_of(h).len() as int));
    let ghost before_discards = paths@.len();
    assert(tenpai_hand(h) ==> waits_covered(paths@, state, &h, seat, *config, waits_of(h), waits_of(h).len() as int));
    if hand.concealed.len() % 3 == 2 && !winning_now {
        let discards = unique_concealed_tiles(hand);
        let mut i: usize = 0;
        while i < discards.len()
            invariant
                i <= discards@.len(),
                discards@ == distinct_upto(h.concealed@, h.concealed@.len() as int),
                *hand == h,
                h == state.hands@[seat as int],
                state.wf(),
                seat < 4,
                hand_sizes_ok(h),
                h.concealed@.len() % 3 == 2,
                !winning_hand(h, None),
                paths@.len() >= before_discards,
                forall|k: int| 0 <= k < paths@.len() ==> path_ok(h, seat as int, #[trigger] paths@[k]),
                forall|k: int| 0 <= k < paths@.len() ==> path_scored(state, seat, *config, #[trigger] paths@[k]),
                tenpai_hand(h) ==> waits_covered(paths@, state, &h, seat, *config, waits_of(h), waits_of(h).len() as int),
                discards_covered(paths@, state, h, seat, *config, discards@, i as int),
            decreases discards@.len() - i,
        {
            let d = discards[i];
            proof {
                lemma_distinct_members(h.concealed@, h.concealed@.len() as int, i as int);
            }
            match hand_after_discard(hand, d) {
                Some(after) => {
                    if is_tenpai(&after) {
                        proof {
                            assert(hand_sizes_ok(after)) by {
                                assert forall|k: int| 0 <= k < after.melds@.len() implies 1 <= (#[trigger] after.melds@[k]).tiles@.len() <= 4 by {
                                    assert(after.melds@[k].tiles@ == h.melds@[k].tiles@);
                                }
                            }
                        }
                        let waits = wait_tiles(&after);
                        let wait_count = waits.len();
                        let mut j: usize = 0;
                        while j < waits.len()
                            invariant
                                j <= waits@.len(),
                                waits@ == waits_of(after),
                                after.concealed@ == remove_first(h.concealed@, d),
                                after.melds@.len() == h.melds@.len(),
                                same_melds(after, h),
                                h.concealed@.contains(d),
                                tenpai_hand(after),
                                hand_sizes_ok(after),
                                *hand == h,
                                h == state.hands@[seat as int],
                                state.wf(),
                                seat < 4,
                                h.concealed@.len() % 3 == 2,
                                !winning_hand(h, None),
                                paths@.len() >= before_discards,
                                tenpai_hand(h) ==> waits_covered(paths@, state, &h, seat, *config, waits_of(h), waits_of(h).len() as int),
                                forall|k: int| 0 <= k < paths@.len() ==> path_ok(h, seat as int, #[trigger] paths@[k]),
                forall|k: int| 0 <= k < paths@.len() ==> path_scored(state, seat, *config, #[trigger] paths@[k]),
                                i < discards@.len(),
                                d == discards@[i as int],
                                discards@ == distinct_upto(h.concealed@, h.concealed@.len() as int),
                                discards_covered(paths@, state, h, seat, *config, discards@, i as int),
                                after_waits_listed(paths@, state, &after, seat, *config, j as int),
                            decreases waits@.len() - j,
                        {
                            let t = waits[j];
                            proof {
                                lemma_waits_win(after, 37, j as int);
                            }
                            let ctx = WinContext::with_hand(state, &after, seat, WinType::Tsumo, t, chankan_timing(state, WinType::Tsumo));
                            if let Some(p) = scored_path(&ctx, config, 1, wait_count) {
                                proof {
                                    assert(h.concealed@.contains(d) && tenpai_with(remove_first(h.concealed@, d), h.melds@.len())
                                        && wins_with(remove_first(h.concealed@, d), h.melds@.len(), Some(t)));
                                    assert(ctx == path_ctx(state, &after, seat, p));
                                    assert(scored_as(&path_ctx(state, &after, seat, p), *config, p));
                                    if tenpai_hand(h) {
                                        lemma_covered_push(paths@, p, state, &h, seat, *config, waits_of(h), waits_of(h).len() as int);
                                    }
                                    assert(ctx == win_ctx(state, &after, seat, WinType::Tsumo, waits_of(after)[j as int]));
                                    lemma_after_wait_listed(paths@, p, state, h, after, seat, *config, discards@, i as int, j as int);
                                }
                                paths.push(p);
                            }
                            j = j + 1;
                        }
                        proof {
                            lemma_discard_done(paths@, state, h, after, seat, *config, discards@, i as int);
                        }
                    } else {
                        proof {
                            lemma_discard_done(paths@, state, h, after, seat, *config, discards@, i as int);
                        }
                    }
                },
                None => {
                    proof {
                        lemma_discard_done(paths@, state, h, h, seat, *config, discards@, i as int);
                    }
                },
            }
            i = i + 1;
        }
    }
    let ghost pv = paths@;
    let out = dedupe(paths);
    proof {
        if h.concealed@.len() % 3 == 2 && !winning_hand(h, None) {
            assert forall|d: Tile| #[trigger] keeps_tenpai(h, d) implies discard_covered(out@, state, h, seat, *config, d) by {
                let s = h.concealed@;
                assert(s.take(s.len() as int) =~= s);
                lemma_distinct_complete(s, s.len() as int, d);
                let ds = distinct_upto(s, s.len() as int);
                let m = choose|m: int| 0 <= m < ds.len() && #[trigger] ds[m] == d;
                assert(discard_covered(pv, state, h, seat, *config, ds[m]));
                lemma_discard_covered_kept(pv, out@, state, h, seat, *config, d);
            }
        }
        if tenpai_hand(h) {
            lemma_covered_kept(pv, out@, state, &h, seat, *config, waits_of(h), waits_of(h).len() as int);
        }
        if winning_hand(h, None) {
            lemma_waits_listed_kept(pv, out@, state, &h, seat, *config, -1i8, waits_of(h).len() as int);
        }
        if pv.len() > 0 {
            assert(kept_all(pv, pv.len() as int, out@));
            let first = pv[0];
            assert(exists|j: int| 0 <= j < out@.len() && same_path(first, out@[j]));
        }
        assert forall|i: int| 0 <= i < out@.len() implies path_ok(state.hands@[seat as int], seat as int, #[trigger] out@[i])
            && path_scored(state, seat, *config, out@[i]) by {
            let k = choose|k: int| 0 <= k < paths@.len() && paths@[k] == out@[i];
        }
    }
    out
}

/// Every tile `waits_upto` lists completes the hand.
proof fn lemma_waits_win(h: Hand, n: int, i: int)
    requires
        0 <= i < waits_upto(h, n).len(),
    ensures
        winning_hand(h, Some(waits_upto(h, n)[i])),
    decreases n,
{
    if n > 0 {
        if winning_hand(h, Some(wait_tile(n - 1))) {
            if i < waits_upto(h, n - 1).len() {
                lemma_waits_win(h, n - 1, i);
            }
        } else {
            lemma_waits_win(h, n - 1, i);
        }
    }
}

/// Every tile `distinct_upto` lists occurs in the sequence.
proof fn lemma_distinct_members(s: Seq<Tile>, n: int, i: int)
    requires
        0 <= n <= s.len(),
        0 <= i < distinct_upto(s, n).len(),
    ensures
        s.contains(distinct_upto(s, n)[i]),
    decreases n,
{
    if n > 0 {
        if s.take(n - 1).contains(s[n - 1]) {
            lemma_distinct_members(s, n - 1, i);
        } else if i < distinct_upto(s, n - 1).len() {
            lemma_distinct_members(s, n - 1, i);
        } else {
            assert(s[n - 1] == distinct_upto(s, n)[i]);
        }
    }
}

/// The tiles a decomposition component shows: a run's three plain tiles, or its triplet tile
/// three times.
pub open spec fn component_tiles(c: MeldComponent) -> Seq<Tile> {
    match (c.sequence, c.triplet) {
        (Some((s, r)), None) => seq![
            numbered_tile(s, r),
            numbered_tile(s, ((r + 1) % 256) as u8),
            numbered_tile(s, ((r + 2) % 256) as u8),
        ],
        (None, Some(t)) => seq![t, t, t],
        _ => Seq::empty(),
    }
}

/// The component of a concealed set, for display.
pub open spec fn shown_set(x: SetTiles) -> MeldComponent {
    if is_triplet(x.0, x.1, x.2) {
        MeldComponent { sequence: None, triplet: Some(x.0), open: false }
    } else {
        MeldComponent { sequence: Some((tile_suit(x.0)->0, tile_rank(x.0)->0)), triplet: None, open: false }
    }
}

fn plain_tile(suit: Suit, rank: u8) -> (t: Tile)
    ensures
        t == numbered_tile(suit, rank),
{
    let kind = match suit {
        Suit::Man => TileKind::Man(rank),
        Suit::Pin => TileKind::Pin(rank),
        Suit::Sou => TileKind::Sou(rank),
    };
    Tile { kind, red: false }
}

fn component_tiles_exec(c: MeldComponent) -> (v: Vec<Tile>)
    ensures
        v@ == component_tiles(c),
{
    let mut v: Vec<Tile> = Vec::new();
    match (c.sequence, c.triplet) {
        (Some((suit, r)), None) => {
            v.push(plain_tile(suit, r));
            v.push(plain_tile(suit, r.wrapping_add(1)));
            v.push(plain_tile(suit, r.wrapping_add(2)));
        },
        (None, Some(t)) => {
            v.push(t);
            v.push(t);
            v.push(t);
        },
        _ => {},
    }
    proof {
        assert(v@ =~= component_tiles(c));
    }
    v
}

fn shown_set_exec(x: SetTiles) -> (c: MeldComponent)
    requires
        super::shape::is_set(x.0, x.1, x.2),
    ensures
        c == shown_set(x),
{
    if x.0 == x.1 && x.1 == x.2 {
        MeldComponent { sequence: None, triplet: Some(x.0), open: false }
    } else {
        let suit = match x.0.suit() {
            Some(s) => s,
            None => Suit::Man,
        };
        let rank = match x.0.rank() {
            Some(r) => r,
            None => 0,
        };
        MeldComponent { sequence: Some((suit, rank)), triplet: None, open: false }
    }
}

/// Appends `label` to `v` as characters.
fn push_chars(v: &mut Vec<char>, label: &str)
    requires
        label.is_ascii(),
    ensures
        final(v)@ == old(v)@ + label@,
{
    let ghost start = v@;
    let n = label.unicode_len();
    let mut i: usize = 0;
    while i < n
        invariant
            n == label@.len(),
            label.is_ascii(),
            i <= n,
            v@ == start + label@.take(i as int),
        decreases n - i,
    {
        v.push(label.get_char(i));
        i = i + 1;
        assert(v@ =~= start + label@.take(i as int));
    }
    assert(label@.take(n as int) =~= label@);
}

/// `a` sorts strictly before `b`: at the first position where they differ the character of
/// `a` is lower, or `a` is a proper prefix of `b`.
pub open spec fn chars_lt(a: Seq<char>, b: Seq<char>) -> bool
    decreases a.len(),
{
    if a.len() == 0 {
        b.len() > 0
    } else if b.len() == 0 {
        false
    } else if (a[0] as u32) < (b[0] as u32) {
        true
    } else if (a[0] as u32) > (b[0] as u32) {
        false
    } else {
        chars_lt(a.drop_first(), b.drop_first())
    }
}

/// Comparing past a common prefix compares the rests.
proof fn lemma_chars_lt_skip(a: Seq<char>, b: Seq<char>, i: int)
    requires
        0 <= i <= a.len(),
        i <= b.len(),
        forall|k: int| 0 <= k < i ==> a[k] as u32 == b[k] as u32,
    ensures
        chars_lt(a, b) == chars_lt(a.skip(i), b.skip(i)),
    decreases i,
{
    if i > 0 {
        assert(a.drop_first().skip(i - 1) =~= a.skip(i));
        assert(b.drop_first().skip(i - 1) =~= b.skip(i));
        lemma_chars_lt_skip(a.drop_first(), b.drop_first(), i - 1);
        assert(a[0] as u32 == b[0] as u32);
        assert(a.skip(0) =~= a);
    } else {
        assert(a.skip(0) =~= a);
        assert(b.skip(0) =~= b);
    }
}

/// Whether `a` sorts strictly before `b`, character by character.
fn chars_before(a: &Vec<char>, b: &Vec<char>) -> (r: bool)
    ensures
        r == chars_lt(a@, b@),
{
    let mut i: usize = 0;
    while i < a.len() && i < b.len()
        invariant
            i <= a@.len(),
            i <= b@.len(),
            forall|k: int| 0 <= k < i ==> a@[k] as u32 == b@[k] as u32,
        decreases a@.len() - i,
    {
        let x = a[i] as u32;
        let y = b[i] as u32;
        if x < y {
            proof {
                lemma_chars_lt_skip(a@, b@, i as int);
                assert(a@.skip(i as int)[0] == a@[i as int]);
                assert(b@.skip(i as int)[0] == b@[i as int]);
            }
            return true;
        }
        if x > y {
            proof {
                lemma_chars_lt_skip(a@, b@, i as int);
                assert(a@.skip(i as int)[0] == a@[i as int]);
                assert(b@.skip(i as int)[0] == b@[i as int]);
            }
            return false;
        }
        i = i + 1;
    }
    proof {
        lemma_chars_lt_skip(a@, b@, i as int);
    }
    a.len() < b.len()
}

/// Characters of a notation are ASCII.
proof fn lemma_decimal_ascii(n: nat)
    ensures
        vstd::utf8::is_ascii_chars(decimal(n)),
    decreases n,
{
    if n >= 10 {
        lemma_decimal_ascii(n / 10);
    }
}

proof fn lemma_tile_label_ascii(t: Tile)
    ensures
        vstd::utf8::is_ascii_chars(tile_label(t)),
{
    match t.kind {
        TileKind::Man(r) => lemma_decimal_ascii(r as nat),
        TileKind::Pin(r) => lemma_decimal_ascii(r as nat),
        TileKind::Sou(r) => lemma_decimal_ascii(r as nat),
        _ => {},
    }
}

/// The notations of `t`, one after another.
pub open spec fn labels_concat(t: Seq<Tile>) -> Seq<char>
    decreases t.len(),
{
    if t.len() == 0 {
        Seq::empty()
    } else {
        labels_concat(t.drop_last()) + tile_label(t.last())
    }
}

/// The label of a component whose tiles in display order are `t`: their notations, in
/// brackets when the component is open.
pub open spec fn component_label(open: bool, t: Seq<Tile>) -> Seq<char> {
    if open {
        seq!['['] + labels_concat(t) + seq![']']
    } else {
        labels_concat(t)
    }
}

/// `k` is the label of component `c`: its tiles sorted, written out.
pub open spec fn component_key_of(c: MeldComponent, k: Seq<char>) -> bool {
    exists|t: Seq<Tile>| sorted(t) && t.to_multiset() == component_tiles(c).to_multiset() && k == component_label(c.open, t)
}

/// The display label of a component: its tiles in display order, bracketed when open.
fn component_key(c: MeldComponent) -> (v: Vec<char>)
    ensures
        component_key_of(c, v@),
{
    let mut tiles = component_tiles_exec(c);
    sort_tiles(&mut tiles);
    let mut v: Vec<char> = Vec::new();
    if c.open {
        v.push('[');
    }
    let ghost start = v@;
    let mut i: usize = 0;
    while i < tiles.len()
        invariant
            i <= tiles@.len(),
            v@ == start + labels_concat(tiles@.take(i as int)),
        decreases tiles@.len() - i,
    {
        let label = tiles[i].to_string();
        proof {
            lemma_tile_label_ascii(tiles@[i as int]);
            assert(tiles@.take(i + 1).drop_last() =~= tiles@.take(i as int));
        }
        if label.as_str().is_ascii() {
            push_chars(&mut v, label.as_str());
        }
        i = i + 1;
    }
    if c.open {
        v.push(']');
    }
    proof {
        assert(tiles@.take(tiles@.len() as int) =~= tiles@);
        if c.open {
            assert(v@ =~= component_label(c.open, tiles@));
        } else {
            assert(v@ =~= component_label(c.open, tiles@));
        }
    }
    v
}

/// Where `key` goes among `ls`: before the first label it sorts before, else at the end.
pub open spec fn insert_at(ls: Seq<Seq<char>>, key: Seq<char>) -> int
    decreases ls.len(),
{
    if ls.len() == 0 {
        0
    } else if chars_lt(key, ls[0]) {
        0
    } else {
        1 + insert_at(ls.drop_first(), key)
    }
}

/// `ls` with `key` put in at `insert_at`.
pub open spec fn insert_sorted(ls: Seq<Seq<char>>, key: Seq<char>) -> Seq<Seq<char>> {
    ls.insert(insert_at(ls, key), key)
}

/// `ls` with each of `keys` put in, in order.
pub open spec fn insert_all(ls: Seq<Seq<char>>, keys: Seq<Seq<char>>) -> Seq<Seq<char>>
    decreases keys.len(),
{
    if keys.len() == 0 {
        ls
    } else {
        insert_sorted(insert_all(ls, keys.drop_last()), keys.last())
    }
}

/// The labels held as character vectors.
pub open spec fn label_views(ls: Seq<Vec<char>>) -> Seq<Seq<char>> {
    ls.map_values(|v: Vec<char>| v@)
}

/// Labels joined with `|`.
pub open spec fn join_bar(ls: Seq<Seq<char>>) -> Seq<char>
    decreases ls.len(),
{
    if ls.len() == 0 {
        Seq::empty()
    } else if ls.len() == 1 {
        ls[0]
    } else {
        join_bar(ls.drop_last()) + seq!['|'] + ls.last()
    }
}

/// The first position where `key` sorts before the label is where `insert_at` puts it.
proof fn lemma_insert_at(ls: Seq<Seq<char>>, key: Seq<char>, p: int)
    requires
        0 <= p <= ls.len(),
        forall|q: int| 0 <= q < p ==> !chars_lt(key, #[trigger] ls[q]),
        p < ls.len() ==> chars_lt(key, ls[p]),
    ensures
        insert_at(ls, key) == p,
    decreases ls.len(),
{
    if ls.len() > 0 && p > 0 {
        assert(!chars_lt(key, ls[0]));
        assert forall|q: int| 0 <= q < p - 1 implies !chars_lt(key, #[trigger] ls.drop_first()[q]) by {
            assert(ls.drop_first()[q] == ls[q + 1]);
        }
        if p - 1 < ls.drop_first().len() {
            assert(ls.drop_first()[p - 1] == ls[p]);
        }
        lemma_insert_at(ls.drop_first(), key, p - 1);
    }
}

/// The ordering key of a decomposition: the pair's label, then its component labels sorted
/// and joined with `|`.
fn decomposition_key(open: &Vec<MeldComponent>, pair: Tile, sets: &Vec<SetTiles>) -> (out: Vec<char>)
    requires
        forall|k: int| 0 <= k < sets@.len() ==> super::shape::is_set((#[trigger] sets@[k]).0, sets@[k].1, sets@[k].2),
    ensures
        exists|keys: Seq<Seq<char>>|
            {
                &&& keys.len() == open@.len() + sets@.len()
                &&& forall|k: int| 0 <= k < open@.len() ==> component_key_of(open@[k], #[trigger] keys[k])
                &&& forall|k: int|
                    0 <= k < sets@.len() ==> component_key_of(shown_set(sets@[k]), #[trigger] keys[open@.len() + k])
                &&& out@ == tile_label(pair) + seq![':'] + join_bar(insert_all(Seq::empty(), keys))
            },
{
    let mut labels: Vec<Vec<char>> = Vec::new();
    let ghost mut keys: Seq<Seq<char>> = Seq::empty();
    let mut i: usize = 0;
    while i < open.len()
        invariant
            i <= open@.len(),
            keys.len() == i,
            forall|k: int| 0 <= k < i ==> component_key_of(open@[k], #[trigger] keys[k]),
            label_views(labels@) == insert_all(Seq::empty(), keys),
        decreases open@.len() - i,
    {
        let key = component_key(open[i]);
        let ghost kv = key@;
        insert_label(&mut labels, key);
        proof {
            let old_keys = keys;
            keys = keys.push(kv);
            assert(keys.drop_last() =~= old_keys);
            assert forall|k: int| 0 <= k < i + 1 implies component_key_of(open@[k], #[trigger] keys[k]) by {
                if k < i {
                    assert(keys[k] == old_keys[k]);
                }
            }
        }
        i = i + 1;
    }
    let mut j: usize = 0;
    while j < sets.len()
        invariant
            j <= sets@.len(),
            keys.len() == open@.len() + j,
            forall|k: int| 0 <= k < sets@.len() ==> super::shape::is_set((#[trigger] sets@[k]).0, sets@[k].1, sets@[k].2),
            forall|k: int| 0 <= k < open@.len() ==> component_key_of(open@[k], #[trigger] keys[k]),
            forall|k: int| 0 <= k < j ==> component_key_of(shown_set(sets@[k]), #[trigger] keys[open@.len() + k]),
            label_views(labels@) == insert_all(Seq::empty(), keys),
        decreases sets@.len() - j,
    {
        let key = component_key(shown_set_exec(sets[j]));
        let ghost kv = key@;
        insert_label(&mut labels, key);
        proof {
            let old_keys = keys;
            keys = keys.push(kv);
            assert(keys.drop_last() =~= old_keys);
            assert forall|k: int| 0 <= k < open@.len() implies component_key_of(open@[k], #[trigger] keys[k]) by {
                assert(keys[k] == old_keys[k]);
            }
            assert forall|k: int| 0 <= k < j + 1 implies component_key_of(shown_set(sets@[k]), #[trigger] keys[open@.len() + k]) by {
                if k < j {
                    assert(keys[open@.len() + k] == old_keys[open@.len() + k]);
                }
            }
        }
        j = j + 1;
    }
    let mut out: Vec<char> = Vec::new();
    let pair_label = pair.to_string();
    proof {
        lemma_tile_label_ascii(pair);
    }
    if pair_label.as_str().is_ascii() {
        push_chars(&mut out, pair_label.as_str());
    }
    out.push(':');
    let ghost head = out@;
    let ghost lv = label_views(labels@);
    let mut j: usize = 0;
    while j < labels.len()
        invariant
            j <= labels@.len(),
            lv == label_views(labels@),
            lv.len() == labels@.len(),
            out@ == head + join_bar(lv.take(j as int)),
        decreases labels@.len() - j,
    {
        let ghost before = out@;
        if j > 0 {
            out.push('|');
        }
        let label = &labels[j];
        let ghost mid = out@;
        let mut k: usize = 0;
        while k < label.len()
            invariant
                k <= label@.len(),
                out@ == mid + label@.take(k as int),
            decreases label@.len() - k,
        {
            out.push(label[k]);
            k = k + 1;
            assert(out@ =~= mid + label@.take(k as int));
        }
        proof {
            assert(label@.take(label@.len() as int) =~= label@);
            assert(lv[j as int] == label@);
            assert(lv.take(j + 1).drop_last() =~= lv.take(j as int));
            assert(lv.take(j + 1).last() == lv[j as int]);
            if j == 0 {
                assert(lv.take(1).len() == 1);
                assert(out@ =~= head + join_bar(lv.take(j + 1)));
            } else {
                assert(out@ =~= head + join_bar(lv.take(j + 1)));
            }
        }
        j = j + 1;
    }
    proof {
        assert(lv.take(lv.len() as int) =~= lv);
        assert(head =~= tile_label(pair) + seq![':']);
    }
    out
}

/// Inserts `key` after every label that does not sort after it.
fn insert_label(labels: &mut Vec<Vec<char>>, key: Vec<char>)
    ensures
        label_views(final(labels)@) == insert_sorted(label_views(old(labels)@), key@),
{
    let ghost kv = key@;
    let mut pos: usize = 0;
    while pos < labels.len() && !chars_before(&key, &labels[pos])
        invariant
            pos <= labels@.len(),
            kv == key@,
            forall|q: int| 0 <= q < pos ==> !chars_lt(key@, #[trigger] labels@[q]@),
        decreases labels@.len() - pos,
    {
        pos = pos + 1;
    }
    let ghost before = labels@;
    proof {
        assert forall|q: int| 0 <= q < pos implies !chars_lt(kv, #[trigger] label_views(before)[q]) by {
            assert(label_views(before)[q] == before[q]@);
        }
        if pos < before.len() {
            assert(label_views(before)[pos as int] == before[pos as int]@);
        }
        lemma_insert_at(label_views(before), kv, pos as int);
    }
    labels.insert(pos, key);
    proof {
        assert(label_views(labels@) =~= insert_sorted(label_views(before), kv));
    }
}

/// The path groups of a component list, closed sets and pair.
pub open spec fn decomposition_groups_ok(groups: Seq<PathGroup>, open: Seq<MeldComponent>, pair: Tile, sets: Seq<SetTiles>) -> bool {
    &&& groups.len() == open.len() + sets.len() + 1
    &&& forall|k: int| 0 <= k < open.len() ==> (#[trigger] groups[k]).tiles@ == component_tiles(open[k]) && groups[k].open == open[k].open
    &&& forall|k: int| 0 <= k < sets.len() ==> (#[trigger] groups[open.len() + k]).tiles@ == component_tiles(shown_set(sets[k]))
        && !groups[open.len() + k].open
    &&& groups.last().tiles@ == seq![pair, pair] && !groups.last().open
}

/// The display groups of a hand path: the seven pairs of a seven-pairs hand; else the
/// components of one standard decomposition (the one first in label order) and its pair;
/// else the melds and the concealed tiles as they are.
pub fn build_from_context(ctx: &WinContext, shanten: i8, suggested_discard: Option<Tile>) -> (d: PathDecomposition)
    requires
        hand_sizes_ok(*ctx.hand),
    ensures
        d.missing@ == if shanten >= 0 { seq![ctx.win_tile] } else { Seq::<Tile>::empty() },
        d.suggested_discard == if shanten == 1 { suggested_discard } else { None },
        ({
            let h = *ctx.hand;
            let all = with_call_tile(h.concealed@, ctx.win_tile, ctx.win_type);
            if h.melds@.len() == 0 && pairs_only(all.to_multiset()) {
                forall|k: int| 0 <= k < d.groups@.len() ==> !(#[trigger] d.groups@[k]).open && d.groups@[k].tiles@.len() <= 2
            } else if exists|p: Tile, l: Seq<SetTiles>| #[trigger] split_of(h, ctx.win_tile, ctx.win_type, p, l) {
                exists|p: Tile, l: Seq<SetTiles>| #[trigger] split_of(h, ctx.win_tile, ctx.win_type, p, l) && decomposition_groups_ok(
                    d.groups@,
                    open_components(h.melds@),
                    p,
                    l,
                )
            } else {
                &&& d.groups@.len() >= h.melds@.len()
                &&& forall|k: int| 0 <= k < h.melds@.len() ==> (#[trigger] d.groups@[k]).tiles@ == h.melds@[k].tiles@ && d.groups@[k].open
            }
        }),
{
    let mut missing: Vec<Tile> = Vec::new();
    if shanten >= 0 {
        missing.push(ctx.win_tile);
    }
    proof {
        assert(missing@ =~= if shanten >= 0 { seq![ctx.win_tile] } else { Seq::<Tile>::empty() });
    }
    let hand = ctx.hand;
    let groups = if is_chiitoitsu_hand(hand, ctx.win_tile, ctx.win_type) {
        chiitoitsu_groups(hand, ctx.win_tile, ctx.win_type)
    } else {
        let ds = decompositions(hand, ctx.win_tile, ctx.win_type);
        if ds.len() > 0 {
            let open = open_melds(hand);
            let mut best: usize = 0;
            proof {
                assert(split_of(*hand, ctx.win_tile, ctx.win_type, ds@[0].0, ds@[0].1@));
                lemma_split_sets(*hand, ctx.win_tile, ctx.win_type, ds@[0].0, ds@[0].1@);
            }
            let mut best_key = decomposition_key(&open, ds[0].0, &ds[0].1);
            let mut q: usize = 1;
            while q < ds.len()
                invariant
                    best < ds@.len(),
                    q <= ds@.len(),
                    forall|i: int| 0 <= i < ds@.len() ==> split_of(*hand, ctx.win_tile, ctx.win_type, (#[trigger] ds@[i]).0, ds@[i].1@),
                decreases ds@.len() - q,
            {
                proof {
                    assert(split_of(*hand, ctx.win_tile, ctx.win_type, ds@[q as int].0, ds@[q as int].1@));
                    lemma_split_sets(*hand, ctx.win_tile, ctx.win_type, ds@[q as int].0, ds@[q as int].1@);
                }
                let key = decomposition_key(&open, ds[q].0, &ds[q].1);
                if chars_before(&key, &best_key) {
                    best = q;
                    best_key = key;
                }
                q = q + 1;
            }
            proof {
                assert(split_of(*hand, ctx.win_tile, ctx.win_type, ds@[best as int].0, ds@[best as int].1@));
                lemma_split_sets(*hand, ctx.win_tile, ctx.win_type, ds@[best as int].0, ds@[best as int].1@);
            }
            decomposition_groups(&open, ds[best].0, &ds[best].1)
        } else {
            proof {
                assert forall|p: Tile, l: Seq<SetTiles>| !#[trigger] split_of(*hand, ctx.win_tile, ctx.win_type, p, l) by {
                    if split_of(*hand, ctx.win_tile, ctx.win_type, p, l) {
                        assert(super::patterns::covered(ds@, p, l));
                    }
                }
            }
            fallback_groups(hand, ctx.win_tile, ctx.win_type)
        }
    };
    PathDecomposition {
        groups,
        missing,
        suggested_discard: if shanten == 1 {
            suggested_discard
        } else {
            None
        },
    }
}

/// The sets of a decomposition are sets.
proof fn lemma_split_sets(h: Hand, win_tile: Tile, win_type: WinType, p: Tile, l: Seq<SetTiles>)
    requires
        split_of(h, win_tile, win_type, p, l),
    ensures
        forall|k: int| 0 <= k < l.len() ==> super::shape::is_set((#[trigger] l[k]).0, l[k].1, l[k].2),
{
}

fn decomposition_groups(open: &Vec<MeldComponent>, pair: Tile, sets: &Vec<SetTiles>) -> (g: Vec<PathGroup>)
    requires
        forall|k: int| 0 <= k < sets@.len() ==> super::shape::is_set((#[trigger] sets@[k]).0, sets@[k].1, sets@[k].2),
    ensures
        decomposition_groups_ok(g@, open@, pair, sets@),
{
    let mut g: Vec<PathGroup> = Vec::new();
    let mut i: usize = 0;
    while i < open.len()
        invariant
            i <= open@.len(),
            g@.len() == i,
            forall|k: int| 0 <= k < i ==> (#[trigger] g@[k]).tiles@ == component_tiles(open@[k]) && g@[k].open == open@[k].open,
        decreases open@.len() - i,
    {
        g.push(PathGroup { tiles: component_tiles_exec(open[i]), open: open[i].open });
        i = i + 1;
    }
    let mut j: usize = 0;
    while j < sets.len()
        invariant
            j <= sets@.len(),
            g@.len() == open@.len() + j,
            forall|k: int| 0 <= k < sets@.len() ==> super::shape::is_set((#[trigger] sets@[k]).0, sets@[k].1, sets@[k].2),
            forall|k: int| 0 <= k < open@.len() ==> (#[trigger] g@[k]).tiles@ == component_tiles(open@[k]) && g@[k].open == open@[k].open,
            forall|k: int| 0 <= k < j ==> (#[trigger] g@[open@.len() + k]).tiles@ == component_tiles(shown_set(sets@[k]))
                && !g@[open@.len() + k].open,
        decreases sets@.len() - j,
    {
        let c = shown_set_exec(sets[j]);
        g.push(PathGroup { tiles: component_tiles_exec(c), open: false });
        j = j + 1;
    }
    let mut pair_tiles: Vec<Tile> = Vec::new();
    pair_tiles.push(pair);
    pair_tiles.push(pair);
    proof {
        assert(pair_tiles@ =~= seq![pair, pair]);
    }
    g.push(PathGroup { tiles: pair_tiles, open: false });
    g
}

/// The tiles of `t` from position `2 * k`, two at a time (one at the end of an odd run).
pub open spec fn pair_chunk(t: Seq<Tile>, k: int) -> Seq<Tile> {
    t.subrange(2 * k, if 2 * k + 2 <= t.len() { 2 * k + 2 } else { t.len() as int })
}

fn chiitoitsu_groups(hand: &Hand, win_tile: Tile, win_type: WinType) -> (g: Vec<PathGroup>)
    ensures
        forall|k: int| 0 <= k < g@.len() ==> !(#[trigger] g@[k]).open && g@[k].tiles@.len() <= 2,
        exists|t: Seq<Tile>|
            {
                &&& sorted(t)
                &&& t.to_multiset() == full_hand(*hand, win_tile, win_type)
                &&& g@.len() == (t.len() + 1) / 2
                &&& forall|k: int| 0 <= k < g@.len() ==> (#[trigger] g@[k]).tiles@ == pair_chunk(t, k)
            },
{
    let tiles = all_tiles_in_hand(hand, win_tile, win_type);
    let mut g: Vec<PathGroup> = Vec::new();
    let mut i: usize = 0;
    while i < tiles.len()
        invariant
            i <= tiles@.len(),
            i % 2 == 0 || i == tiles@.len(),
            g@.len() == (i + 1) / 2,
            forall|k: int| 0 <= k < g@.len() ==> !(#[trigger] g@[k]).open && g@[k].tiles@.len() <= 2,
            forall|k: int| 0 <= k < g@.len() ==> (#[trigger] g@[k]).tiles@ == pair_chunk(tiles@, k),
        decreases tiles@.len() - i,
    {
        let mut chunk: Vec<Tile> = Vec::new();
        chunk.push(tiles[i]);
        if i + 1 < tiles.len() {
            chunk.push(tiles[i + 1]);
        }
        proof {
            let k = (i / 2) as int;
            assert(2 * k == i);
            assert(chunk@ =~= pair_chunk(tiles@, k));
        }
        g.push(PathGroup { tiles: chunk, open: false });
        i = if tiles.len() - i > 2 { i + 2 } else { tiles.len() };
    }
    proof {
        assert(full_hand(*hand, win_tile, win_type) == tiles@.to_multiset());
    }
    g
}

fn fallback_groups(hand: &Hand, win_tile: Tile, win_type: WinType) -> (g: Vec<PathGroup>)
    ensures
        g@.len() >= hand.melds@.len(),
        forall|k: int| 0 <= k < hand.melds@.len() ==> (#[trigger] g@[k]).tiles@ == hand.melds@[k].tiles@ && g@[k].open,
{
    let mut g: Vec<PathGroup> = Vec::new();
    let mut i: usize = 0;
    while i < hand.melds.len()
        invariant
            i <= hand.melds@.len(),
            g@.len() == i,
            forall|k: int| 0 <= k < i ==> (#[trigger] g@[k]).tiles@ == hand.melds@[k].tiles@ && g@[k].open,
        decreases hand.melds@.len() - i,
    {
        g.push(PathGroup { tiles: crate::hand::copy_tiles(hand.melds[i].tiles.as_slice()), open: true });
        i = i + 1;
    }
    let mut concealed = tiles_with_win_tile(hand, win_tile, win_type);
    sort_tiles(&mut concealed);
    if concealed.len() > 0 {
        g.push(PathGroup { tiles: concealed, open: false });
    }
    g
}

} // verus!
