//! The standard riichi rules profile: win shapes, yaku, fu, dora and payments.

pub mod shape;
pub mod win;
pub mod decomp;
pub mod patterns;
pub mod yakuman;
pub mod waits;
pub mod dora;
pub mod yaku;
pub mod fu;
pub mod score;
pub mod abortive;
pub mod recommend;
pub mod cheatsheet;
pub mod win_combinations;

use vstd::prelude::*;

use crate::game::{AbortiveDrawKind, AbortiveTrigger};
use crate::hand::{Hand, remove_first};
use crate::rules::RulesConfig;
use crate::rules::context::WinContext;
use crate::rules::profile::RulesProfileId;
use crate::rules::traits::RulesProfile;
use crate::rules::recommendations::{Recommendation, ranked, sort_recommendations, sorted_from};
use crate::scoring::{ScoringResult, WinType, Yaku};
use crate::scoring::limits::base_points_spec;
use crate::state::HandState;
use crate::tile::Tile;

verus! {

/// The standard Japanese riichi rules.
#[derive(Debug, Clone, Copy, PartialEq, Eq, Structural)]
pub struct StandardRules;

/// `r` pays out its win at a table with `dealer`, `honba` and `sticks`: each seat's change is
/// the one its han and fu give.
pub open spec fn scored_win(r: ScoringResult, dealer: int, honba: int, sticks: int) -> bool {
    forall|s: int| 0 <= s < 4 ==> #[trigger] r.deltas@[s] == score::win_delta(
        base_points_spec(r.han, r.fu),
        r.winner as int,
        dealer,
        r.win_type,
        honba,
        sticks,
        s,
    )
}

/// Two tsumo wins scored with the same han and fu at the same table, one by the dealer and
/// one by a child: the dealer collects more, once the basic points exceed fifty.
pub proof fn lemma_dealer_tsumo_earns_more(dealer_win: ScoringResult, child_win: ScoringResult, dealer: int, honba: int, sticks: int)
    requires
        scored_win(dealer_win, dealer, honba, sticks),
        scored_win(child_win, dealer, honba, sticks),
        dealer_win.win_type is Tsumo,
        child_win.win_type is Tsumo,
        0 <= dealer < 4,
        dealer_win.winner == dealer,
        child_win.winner < 4,
        child_win.winner != dealer,
        dealer_win.han == child_win.han,
        dealer_win.fu == child_win.fu,
        base_points_spec(dealer_win.han, dealer_win.fu) > 50,
    ensures
        dealer_win.deltas@[dealer] > child_win.deltas@[child_win.winner as int],
{
    score::lemma_dealer_win_pays_more(base_points_spec(dealer_win.han, dealer_win.fu) as int, dealer, child_win.winner as int, honba, sticks);
    assert(dealer_win.deltas@[dealer] == score::win_delta(
        base_points_spec(dealer_win.han, dealer_win.fu) as int, dealer, dealer, WinType::Tsumo, honba, sticks, dealer));
    assert(child_win.deltas@[child_win.winner as int] == score::win_delta(
        base_points_spec(child_win.han, child_win.fu) as int, child_win.winner as int, dealer, WinType::Tsumo, honba, sticks,
        child_win.winner as int));
}

/// Han of a win: its yaku's han plus dora, ura dora and aka dora (capped at 255).
pub open spec fn win_han(yaku: Seq<Yaku>, is_open: bool, dora: nat, ura: nat, aka: nat) -> u8 {
    let total = yaku::han_sum(yaku, is_open) + dora + ura + aka;
    if total > 255 { 255 } else { total as u8 }
}

/// Paths of distinct identities stay distinct when reordered.
proof fn lemma_unique_after_permutation(a: Seq<Recommendation>, b: Seq<Recommendation>, i: int, j: int)
    requires
        a.to_multiset() == b.to_multiset(),
        forall|x: int, y: int| 0 <= x < y < a.len() ==> !recommend::same_path(a[x], a[y]),
        0 <= i < j < b.len(),
    ensures
        !recommend::same_path(b[i], b[j]),
{
    broadcast use vstd::multiset::group_multiset_axioms;
    a.to_multiset_ensures();
    b.to_multiset_ensures();
    assert(b.to_multiset().count(b[i]) > 0);
    assert(a.contains(b[i]));
    let x = choose|x: int| 0 <= x < a.len() && a[x] == b[i];
    if recommend::same_path(b[i], b[j]) {
        if b[i] == b[j] {
            assert(b.to_multiset().count(b[i]) >= 2) by {
                let c = b.remove(j);
                c.to_multiset_ensures();
                assert(c.to_multiset() =~= b.to_multiset().remove(b[j]));
                assert(c[i] == b[i]);
                assert(c.contains(b[i]));
                assert(c.to_multiset().count(b[i]) > 0);
            }
            assert(a.to_multiset().count(a[x]) >= 2);
            let a2 = a.remove(x);
            a2.to_multiset_ensures();
            assert(a2.to_multiset() =~= a.to_multiset().remove(a[x]));
            assert(a2.to_multiset().count(a[x]) >= 1);
            assert(a2.contains(a[x]));
            let y2 = choose|y: int| 0 <= y < a2.len() && a2[y] == a[x];
            let y = if y2 < x { y2 } else { y2 + 1 };
            assert(a[y] == a[x]);
            if y < x {
                assert(!recommend::same_path(a[y], a[x]));
            } else {
                assert(!recommend::same_path(a[x], a[y]));
            }
        } else {
            assert(b.to_multiset().count(b[j]) > 0);
            assert(a.contains(b[j]));
            let y = choose|y: int| 0 <= y < a.len() && a[y] == b[j];
            assert(x != y);
            if x < y {
                assert(!recommend::same_path(a[x], a[y]));
            } else {
                assert(!recommend::same_path(a[y], a[x]));
            }
        }
    }
}

fn han_total_capped(yaku: &Vec<Yaku>, is_open: bool, dora: u8, ura: u8, aka: u8) -> (h: u8)
    ensures
        h == win_han(yaku@, is_open, dora as nat, ura as nat, aka as nat),
{
    let mut total: u32 = 0;
    let mut i: usize = 0;
    while i < yaku.len()
        invariant
            i <= yaku@.len(),
            total == if yaku::han_sum(yaku@.take(i as int), is_open) > 255 { 256 } else { yaku::han_sum(yaku@.take(i as int), is_open) },
        decreases yaku@.len() - i,
    {
        proof {
            assert(yaku@.take(i + 1).drop_last() =~= yaku@.take(i as int));
        }
        let h = yaku::han_for_yaku(yaku[i], is_open);
        total = total + h as u32;
        if total > 255 {
            total = 256;
        }
        i = i + 1;
    }
    proof {
        assert(yaku@.take(yaku@.len() as int) =~= yaku@);
    }
    total = total + dora as u32 + ura as u32 + aka as u32;
    if total > 255 { 255 } else { total as u8 }
}

impl RulesProfile for StandardRules {
    fn id(&self) -> (id: RulesProfileId)
        ensures
            id == RulesProfileId::Standard,
    {
        RulesProfileId::Standard
    }

    fn can_win(&self, ctx: &WinContext, config: &RulesConfig) -> (b: bool)
        ensures
            b == win::winning_hand(*ctx.hand, Some(ctx.win_tile)),
    {
        win::is_winning_hand(ctx.hand, Some(ctx.win_tile))
    }

    fn is_tenpai(&self, hand: &Hand, config: &RulesConfig) -> (b: bool)
        ensures
            b == win::tenpai_hand(*hand),
    {
        win::is_tenpai(hand)
    }

    fn recommendations(&self, state: &HandState, seat: usize, config: &RulesConfig, limit: usize) -> (v: Vec<Recommendation>)
        ensures
            v@.len() <= limit,
            ranked(v@),
            forall|i: int| 0 <= i < v@.len() ==> recommend::path_ok(state.hands@[seat as int], seat as int, #[trigger] v@[i]),
            forall|i: int, j: int| 0 <= i < j < v@.len() ==> !recommend::same_path(v@[i], v@[j]),
            limit > 0 && win::tenpai_hand(state.hands@[seat as int]) ==> v@.len() > 0,
            exists|all: Seq<Recommendation>, sorted: Seq<Recommendation>|
                #![trigger recommend::collected(state, seat, *config, all), sorted_from(all, sorted)]
                recommend::collected(state, seat, *config, all) && sorted_from(all, sorted) && v@ == sorted.take(
                    if limit < sorted.len() { limit as int } else { sorted.len() as int },
                ),
    {
        let mut paths = recommend::collect(state, seat, config);
        let ghost before = paths@;
        sort_recommendations(&mut paths);
        let ghost sorted = paths@;
        proof {
            paths@.to_multiset_ensures();
            before.to_multiset_ensures();
            assert forall|i: int| 0 <= i < paths@.len() implies recommend::path_ok(state.hands@[seat as int], seat as int, #[trigger] paths@[i]) by {
                assert(paths@.contains(paths@[i]));
                assert(paths@.to_multiset().count(paths@[i]) > 0);
                assert(before.to_multiset().count(paths@[i]) > 0);
                assert(before.contains(paths@[i]));
            }
            assert forall|i: int, j: int| 0 <= i < j < paths@.len() implies !recommend::same_path(paths@[i], paths@[j]) by {
                lemma_unique_after_permutation(before, paths@, i, j);
            }
        }
        proof {
            assert(paths@.to_multiset().len() == before.to_multiset().len());
        }
        paths.truncate(limit);
        proof {
            assert(paths@ == sorted.take(if limit < sorted.len() { limit as int } else { sorted.len() as int }));
            assert(recommend::collected(state, seat, *config, before) && sorted_from(before, sorted));
        }
        paths
    }

    fn is_riichi_discard(&self, hand: &Hand, discard: Tile, config: &RulesConfig) -> (b: bool)
        ensures
            b == (hand.concealed@.contains(discard) && win::tenpai_with(
                remove_first(hand.concealed@, discard),
                hand.melds@.len(),
            )),
    {
        win::is_tenpai_after_discard(hand, discard)
    }

    fn score_win(&self, ctx: &WinContext, config: &RulesConfig) -> (r: ScoringResult)
        ensures
            r.winner == ctx.winner,
            r.win_type == ctx.win_type,
            r.yaku@ == yaku::yaku_of(ctx),
            r.dora == dora::dora_hits(
                win::full_hand(*ctx.hand, ctx.win_tile, ctx.win_type),
                dora::indicators_of(ctx.state.wall.dead_seq(), ctx.state.wall.kans() as nat, 0),
                ctx.state.wall.kans() + 1,
            ),
            r.ura_dora == if ctx.state.riichi@[ctx.winner as int] {
                dora::dora_hits(
                    win::full_hand(*ctx.hand, ctx.win_tile, ctx.win_type),
                    dora::indicators_of(ctx.state.wall.dead_seq(), ctx.state.wall.kans() as nat, 1),
                    ctx.state.wall.kans() + 1,
                )
            } else {
                0
            },
            r.aka_dora == if config.aka_dora { dora::red_count(win::full_hand(*ctx.hand, ctx.win_tile, ctx.win_type)) } else { 0 },
            r.han == win_han(yaku::yaku_of(ctx), ctx.hand.melds@.len() > 0, r.dora as nat, r.ura_dora as nat, r.aka_dora as nat),
            fu::fu_ok(ctx, yaku::yaku_of(ctx), *config, r.fu),
            scored_win(r, ctx.state.dealer as int, ctx.state.honba as int, ctx.state.table_riichi_sticks as int),
            r.deltas@[0] + r.deltas@[1] + r.deltas@[2] + r.deltas@[3] == if ctx.win_type is Tsumo {
                ctx.state.table_riichi_sticks * 1000
            } else {
                0
            },
    {
        let yaku = yaku::detect_yaku(ctx, config);
        let d = dora::count_dora(ctx, config);
        let u = dora::count_ura_dora(ctx, config);
        let a = dora::count_aka_dora(ctx, config);
        let is_open = !ctx.is_menzen();
        let han = han_total_capped(&yaku, is_open, d, u, a);
        let fu = fu::calculate_fu(ctx, yaku.as_slice(), config);
        score::score_hand(ctx, yaku.as_slice(), han, fu, d, u, a, config)
    }

    fn score_exhaustive_draw(&self, state: &HandState, config: &RulesConfig) -> (d: [i32; 4])
        ensures
            forall|s: int| 0 <= s < 4 ==> #[trigger] d@[s] == score::draw_delta(score::tenpai_seats(*state), s),
            d@[0] + d@[1] + d@[2] + d@[3] == 0,
    {
        score::score_exhaustive_draw(state)
    }

    fn detect_abortive(&self, state: &HandState, config: &RulesConfig, trigger: AbortiveTrigger) -> (r: Option<AbortiveDrawKind>)
        ensures
            r == abortive::abortive_of(*state, *config, trigger),
    {
        abortive::detect_abortive(state, config, trigger)
    }
}

} // verus!
