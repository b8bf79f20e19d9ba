//! Win checks, riichi, furiten, and the end of a hand by win, exhaustive or abortive draw.

use vstd::prelude::*;

use crate::action::Action;
use crate::error::Error;
use crate::event::Event;
use crate::game::{AbortiveDrawKind, AbortiveTrigger};
use crate::hand::{hand_sizes_ok, remove_first};
use crate::rules::RulesRegistry;
use crate::rules::context::{WinContext, WinTimingFlags};
use crate::rules::standard::abortive::abortive_of;
use crate::rules::standard::score::{draw_delta, tenpai_seats, win_delta};
use crate::rules::standard::win::{tenpai_hand, tenpai_with, winning_hand};
use crate::rules::traits::RulesProfile;
use crate::scoring::WinType;
use crate::scoring::limits::base_points_spec;
use crate::state::hand_state::{HandEndReason, HandPhase, HandState};
use crate::state::play::{discard_abort, same_flags};
use crate::state::replay::{lemma_replays_concat, lemma_replays_unchanged, replays_to};
use crate::state::reaction::{ReactionKind, ReactionState};
use crate::tile::{Tile, tile_identity};

verus! {

/// `seat` may not ron `win_tile`: it passed a win since its last draw, passed one after riichi,
/// or its own river holds that face.
pub open spec fn furiten(s: HandState, seat: int, win_tile: Tile) -> bool {
    ||| s.temporary_furiten@[seat]
    ||| s.riichi_furiten@[seat]
    ||| exists|i: int| 0 <= i < s.discards@[seat]@.len() && tile_identity(#[trigger] s.discards@[seat]@[i]) == tile_identity(win_tile)
}

/// `seat` can ron the tile of the open reaction window.
pub open spec fn ron_allowed(s: HandState, seat: int) -> bool {
    &&& s.reaction is Some
    &&& !furiten(s, seat, s.reaction->0.tile)
    &&& winning_hand(s.hands@[seat], Some(s.reaction->0.tile))
}

/// The current actor can tsumo the tile it just drew.
pub open spec fn tsumo_allowed(s: HandState, seat: int) -> bool {
    &&& s.last_draw is Some
    &&& seat == s.current_actor
    &&& winning_hand(s.hands@[seat], Some(s.last_draw->0))
}

/// `seat` may declare riichi now: its turn to discard, not yet in riichi, closed, tenpai, and
/// holding at least 1000 points.
pub open spec fn riichi_allowed(s: HandState, seat: int) -> bool {
    &&& seat == s.current_actor
    &&& s.phase == HandPhase::Discard
    &&& !s.riichi@[seat]
    &&& s.hands@[seat].melds@.len() == 0
    &&& tenpai_hand(s.hands@[seat])
    &&& s.scores@[seat] >= 1000
}

/// What `seat` gains from the wins reported by the `Won` events of `won`, each paid at `s`
/// (its dealer, honba and table sticks) by `win_type` from the han and fu it reports.
pub open spec fn wins_delta(s: HandState, won: Seq<Event>, win_type: WinType, seat: int) -> int
    decreases won.len(),
{
    if won.len() == 0 {
        0
    } else {
        wins_delta(s, won.drop_last(), win_type, seat) + match won.last() {
            Event::Won { seat: w, han, fu } => win_delta(
                base_points_spec(han, fu),
                w as int,
                s.dealer as int,
                win_type,
                s.honba as int,
                s.table_riichi_sticks as int,
                seat,
            ),
            _ => 0,
        }
    }
}

/// What the wins pay depends only on the table: dealer, honba and riichi sticks.
pub proof fn lemma_wins_delta_same_table(a: HandState, b: HandState, won: Seq<Event>, win_type: WinType, seat: int)
    requires
        a.dealer == b.dealer,
        a.honba == b.honba,
        a.table_riichi_sticks == b.table_riichi_sticks,
    ensures
        wins_delta(a, won, win_type, seat) == wins_delta(b, won, win_type, seat),
    decreases won.len(),
{
    if won.len() > 0 {
        lemma_wins_delta_same_table(a, b, won.drop_last(), win_type, seat);
    }
}

/// One more than the largest `u32`: the period of `wrapping_add` on `i32`.
pub open spec fn wrap_period() -> int {
    0x1_0000_0000
}

/// `b` is `a` after `seat` declared riichi on `discard`: the stick goes on the table, the
/// seat is in riichi with its ippatsu chance open (a double riichi on an uncalled first
/// turn), and the tile goes to its river.
pub open spec fn riichi_declared(a: HandState, seat: usize, discard: Tile, b: HandState) -> bool {
    &&& b.riichi@[seat as int]
    &&& b.ippatsu_live@[seat as int]
    &&& b.scores@[seat as int] == a.scores@[seat as int] - 1000
    &&& forall|i: int| 0 <= i < 4 && i != seat ==> #[trigger] b.scores@[i] == a.scores@[i]
    &&& b.table_riichi_sticks == (if a.table_riichi_sticks == 255 { 0 } else { a.table_riichi_sticks + 1 })
    &&& b.discards@[seat as int]@ == a.discards@[seat as int]@.push(discard)
    &&& b.hands@[seat as int].concealed@ == remove_first(a.hands@[seat as int].concealed@, discard)
    &&& b.double_riichi@[seat as int] == (a.double_riichi@[seat as int] || (a.first_discards@[seat as int] is None
        && !a.calls_made))
    &&& b.accounted() == a.accounted()
    &&& (b.phase == HandPhase::Ended || (b.phase == HandPhase::Reaction && b.reaction == Some(
        ReactionState::new_spec(seat, discard),
    )))
    &&& (b.phase == HandPhase::Ended <==> discard_abort(b, seat, discard, true) is Some)
    &&& (discard_abort(b, seat, discard, true) matches Some(k) ==> b.end_reason == Some(HandEndReason::AbortiveDraw(k)))
}

impl HandState {
    pub fn is_furiten(&self, seat: usize, win_tile: Tile) -> (b: bool)
        requires
            self.wf(),
            seat < 4,
        ensures
            b == furiten(*self, seat as int, win_tile),
    {
        if self.temporary_furiten[seat] || self.riichi_furiten[seat] {
            return true;
        }
        let river = self.discards[seat].as_slice();
        let mut i: usize = 0;
        while i < river.len()
            invariant
                i <= river@.len(),
                river@ == self.discards@[seat as int]@,
                !self.temporary_furiten@[seat as int],
                !self.riichi_furiten@[seat as int],
                forall|k: int| 0 <= k < i ==> tile_identity(#[trigger] river@[k]) != tile_identity(win_tile),
            decreases river@.len() - i,
        {
            if river[i].matches_identity(win_tile) {
                proof {
                    assert(tile_identity(self.discards@[seat as int]@[i as int]) == tile_identity(win_tile));
                }
                return true;
            }
            i = i + 1;
        }
        false
    }

    /// Whether `seat` can ron the tile of the open reaction window.
    pub fn can_ron(&self, seat: usize) -> (b: bool)
        requires
            self.wf(),
            seat < 4,
        ensures
            b == ron_allowed(*self, seat as int),
    {
        let reaction = match self.reaction {
            Some(r) => r,
            None => {
                return false;
            },
        };
        if self.is_furiten(seat, reaction.tile) {
            return false;
        }
        match RulesRegistry::get(self.config.profile) {
            Ok(rules) => {
                let ctx = WinContext::new(
                    self,
                    seat,
                    WinType::Ron { from: reaction.discarder },
                    reaction.tile,
                    WinTimingFlags { is_chankan: reaction.kind == ReactionKind::Kakan },
                );
                rules.can_win(&ctx, &self.config)
            },
            Err(_) => false,
        }
    }

    /// Whether `seat` can tsumo the tile it just drew.
    pub fn can_tsumo(&self, seat: usize) -> (b: bool)
        requires
            self.wf(),
            seat < 4,
        ensures
            b == tsumo_allowed(*self, seat as int),
    {
        let win_tile = match self.last_draw {
            Some(t) => t,
            None => {
                return false;
            },
        };
        if seat != self.current_actor {
            return false;
        }
        match RulesRegistry::get(self.config.profile) {
            Ok(rules) => {
                let ctx = WinContext::new(self, seat, WinType::Tsumo, win_tile, WinTimingFlags::default());
                rules.can_win(&ctx, &self.config)
            },
            Err(_) => false,
        }
    }

    /// Whether `seat` may declare riichi now.
    pub fn can_declare_riichi(&self, seat: usize) -> (b: bool)
        requires
            self.wf(),
            seat < 4,
        ensures
            b == riichi_allowed(*self, seat as int),
    {
        if seat != self.current_actor || self.phase != HandPhase::Discard || self.riichi[seat]
            || self.hands[seat].melds.len() != 0 {
            return false;
        }
        let tenpai = match RulesRegistry::get(self.config.profile) {
            Ok(rules) => rules.is_tenpai(&self.hands[seat], &self.config),
            Err(_) => false,
        };
        tenpai && self.scores[seat] >= 1000
    }

    /// Whether the dealer may abort on its first turn with nine distinct terminals and honors.
    pub fn can_abort_nine_terminals(&self, seat: usize) -> (b: bool)
        requires
            self.wf(),
        ensures
            b == (seat == self.dealer && self.is_dealer_first_turn && abortive_of(
                *self,
                self.config,
                AbortiveTrigger::DealerFirstTurn,
            ) == Some(AbortiveDrawKind::NineTerminals)),
    {
        if seat != self.dealer || !self.is_dealer_first_turn {
            return false;
        }
        match RulesRegistry::get(self.config.profile) {
            Ok(rules) => {
                let k = rules.detect_abortive(self, &self.config, AbortiveTrigger::DealerFirstTurn);
                match k {
                    Some(AbortiveDrawKind::NineTerminals) => true,
                    _ => false,
                }
            },
            Err(_) => false,
        }
    }

    /// Ends the hand by the dealer's nine-terminals abort.
    pub fn apply_abortive_nine_terminals(&mut self, seat: usize) -> (r: Result<Vec<Event>, Error>)
        requires
            old(self).wf(),
        ensures
            final(self).wf(),
            r is Ok <==> (seat == old(self).dealer && old(self).is_dealer_first_turn && abortive_of(
                *old(self),
                old(self).config,
                AbortiveTrigger::DealerFirstTurn,
            ) == Some(AbortiveDrawKind::NineTerminals)),
            r is Err ==> *final(self) == *old(self) && (r matches Err(Error::IllegalAction { action: Action::AbortiveNineTerminals, .. })),
            r is Ok ==> *final(self) == (HandState {
                phase: HandPhase::Ended,
                reaction: None,
                end_reason: Some(HandEndReason::AbortiveDraw(AbortiveDrawKind::NineTerminals)),
                ..*old(self)
            }),
            r matches Ok(ev) ==> ev@ == seq![Event::AbortiveDraw { kind: AbortiveDrawKind::NineTerminals }],
    {
        if !self.can_abort_nine_terminals(seat) {
            return Err(Error::IllegalAction { action: Action::AbortiveNineTerminals, phase: self.phase });
        }
        let r = self.resolve_abortive_draw(AbortiveDrawKind::NineTerminals, Vec::new());
        proof {
            assert(r->Ok_0@ =~= seq![Event::AbortiveDraw { kind: AbortiveDrawKind::NineTerminals }]);
        }
        r
    }

    /// Marks `seat` furiten after it passed a win it could have taken.
    pub fn mark_passed_win(&mut self, seat: usize)
        requires
            old(self).wf(),
            seat < 4,
        ensures
            final(self).wf(),
            !ron_allowed(*old(self), seat as int) ==> *final(self) == *old(self),
            ron_allowed(*old(self), seat as int) && old(self).riichi@[seat as int] ==> *final(self) == (HandState {
                riichi_furiten: final(self).riichi_furiten,
                ..*old(self)
            }) && final(self).riichi_furiten@ == old(self).riichi_furiten@.update(seat as int, true),
            ron_allowed(*old(self), seat as int) && !old(self).riichi@[seat as int] ==> *final(self) == (HandState {
                temporary_furiten: final(self).temporary_furiten,
                ..*old(self)
            }) && final(self).temporary_furiten@ == old(self).temporary_furiten@.update(seat as int, true),
    {
        if !self.can_ron(seat) {
            return;
        }
        if self.riichi[seat] {
            self.riichi_furiten[seat] = true;
        } else {
            self.temporary_furiten[seat] = true;
        }
    }

    /// The score changes, han and fu of `winner`'s win, or nothing when the hand does not win.
    fn score_one(&self, winner: usize, win_type: WinType, win_tile: Tile, timing: WinTimingFlags) -> (r: Option<([i32; 4], u8, u8)>)
        requires
            self.wf(),
            winner < 4,
            win_type matches WinType::Ron { from } ==> from < 4,
        ensures
            r is Some <==> winning_hand(self.hands@[winner as int], Some(win_tile)),
            r matches Some((d, han, fu)) ==> forall|k: int|
                0 <= k < 4 ==> #[trigger] d@[k] == win_delta(
                    base_points_spec(han, fu),
                    winner as int,
                    self.dealer as int,
                    win_type,
                    self.honba as int,
                    self.table_riichi_sticks as int,
                    k,
                ),
    {
        let rules = match RulesRegistry::get(self.config.profile) {
            Ok(p) => p,
            Err(_) => {
                return None;
            },
        };
        let ctx = WinContext::new(self, winner, win_type, win_tile, timing);
        if !rules.can_win(&ctx, &self.config) {
            return None;
        }
        proof {
            crate::rules::standard::win::lemma_winning_len(*ctx.hand, Some(win_tile));
        }
        let result = rules.score_win(&ctx, &self.config);
        Some((result.deltas, result.han, result.fu))
    }

    /// Ends the hand with a win by every seat of `winners` on `win_tile`.
    pub fn resolve_multi_ron(
        &mut self,
        winners: Vec<usize>,
        win_type: WinType,
        win_tile: Tile,
        timing: WinTimingFlags,
    ) -> (r: Result<Vec<Event>, Error>)
        requires
            old(self).wf(),
            forall|i: int| 0 <= i < winners@.len() ==> #[trigger] winners@[i] < 4,
            win_type matches WinType::Ron { from } ==> from < 4,
        ensures
            final(self).wf(),
            r is Ok <==> winners@.len() > 0 && forall|i: int|
                0 <= i < winners@.len() ==> winning_hand(old(self).hands@[#[trigger] winners@[i] as int], Some(win_tile)),
            r is Err ==> *final(self) == *old(self) && (r matches Err(Error::CannotWin)),
            r is Ok ==> {
                &&& final(self).phase == HandPhase::Ended
                &&& final(self).reaction is None
                &&& final(self).end_reason == Some(HandEndReason::Win { winners })
                &&& final(self).table_riichi_sticks == 0
                &&& final(self).hands == old(self).hands
                &&& final(self).discards == old(self).discards
                &&& final(self).wall == old(self).wall
            },
            r matches Ok(ev) ==> ev@.len() == winners@.len() + 1 && ev@.last() matches Event::ScoresAdjusted { .. },
            r matches Ok(ev) ==> forall|k: int| 0 <= k < winners@.len() ==> (#[trigger] ev@[k] matches Event::Won { seat, .. } && seat == winners@[k]),
            r matches Ok(ev) ==> (ev@.last() matches Event::ScoresAdjusted { deltas } && forall|k: int|
                0 <= k < 4 ==> {
                    let total = wins_delta(*old(self), ev@.drop_last(), win_type, k);
                    &&& (i32::MIN <= total <= i32::MAX ==> #[trigger] deltas@[k] == total)
                    &&& (i32::MIN <= old(self).scores@[k] + deltas@[k] <= i32::MAX ==> final(self).scores@[k]
                        == old(self).scores@[k] + deltas@[k])
                }),
    {
        if winners.len() == 0 {
            return Err(Error::CannotWin);
        }
        let mut events: Vec<Event> = Vec::new();
        let mut combined: [i32; 4] = [0, 0, 0, 0];
        let ghost mut wraps: Seq<int> = seq![0int, 0, 0, 0];
        let mut i: usize = 0;
        while i < winners.len()
            invariant
                i <= winners@.len(),
                self.wf(),
                *self == *old(self),
                forall|k: int| 0 <= k < winners@.len() ==> #[trigger] winners@[k] < 4,
                win_type matches WinType::Ron { from } ==> from < 4,
                forall|k: int| 0 <= k < i ==> winning_hand(self.hands@[#[trigger] winners@[k] as int], Some(win_tile)),
                events@.len() == i,
                forall|k: int| 0 <= k < i ==> (#[trigger] events@[k] matches Event::Won { seat, .. } && seat == winners@[k]),
                wraps.len() == 4,
                forall|k: int| 0 <= k < 4 ==> #[trigger] combined@[k] + wraps[k] * wrap_period() == wins_delta(
                    *self,
                    events@,
                    win_type,
                    k,
                ),
            decreases winners@.len() - i,
        {
            let winner = winners[i];
            let (deltas, han, fu) = match self.score_one(winner, win_type, win_tile, timing) {
                Some(x) => x,
                None => {
                    return Err(Error::CannotWin);
                },
            };
            let ghost before = combined@;
            let ghost wraps_before = wraps;
            let mut s: usize = 0;
            while s < 4
                invariant
                    s <= 4,
                    wraps.len() == 4,
                    forall|k: int| 0 <= k < s ==> #[trigger] combined@[k] + wraps[k] * wrap_period() == before[k]
                        + deltas@[k] + wraps_before[k] * wrap_period(),
                    forall|k: int| s <= k < 4 ==> #[trigger] combined@[k] == before[k] && wraps[k] == wraps_before[k],
                decreases 4 - s,
            {
                let c = combined[s];
                let d = deltas[s];
                let ghost prev = combined@;
                let n = c.wrapping_add(d);
                combined[s] = n;
                proof {
                    assert(combined@ == prev.update(s as int, n));
                    let sum = c as int + d as int;
                    let j: int = if sum > i32::MAX { 1 } else if sum < i32::MIN { -1 } else { 0 };
                    assert(n == sum - j * 0x1_0000_0000);
                    let old_wraps = wraps;
                    wraps = wraps.update(s as int, wraps[s as int] + j);
                    assert forall|k: int| 0 <= k < s + 1 implies #[trigger] combined@[k] + wraps[k] * wrap_period()
                        == before[k] + deltas@[k] + wraps_before[k] * wrap_period() by {
                        if k == s {
                            assert(prev[k] == before[k]);
                            assert(old_wraps[k] == wraps_before[k]);
                        } else {
                            assert(combined@[k] == prev[k]);
                            assert(wraps[k] == old_wraps[k]);
                        }
                    }
                    assert forall|k: int| s + 1 <= k < 4 implies #[trigger] combined@[k] == before[k] && wraps[k]
                        == wraps_before[k] by {
                        assert(combined@[k] == prev[k]);
                        assert(wraps[k] == old_wraps[k]);
                    }
                }
                s = s + 1;
            }
            let ghost won_before = events@;
            events.push(Event::Won { seat: winner, han, fu });
            proof {
                assert(events@.drop_last() =~= won_before);
                assert(events@.last() == Event::Won { seat: winner, han, fu });
                assert forall|k: int| 0 <= k < 4 implies #[trigger] combined@[k] + wraps[k] * wrap_period() == wins_delta(
                    *self,
                    events@,
                    win_type,
                    k,
                ) by {
                    assert(combined@[k] + wraps[k] * wrap_period() == before[k] + deltas@[k] + wraps_before[k] * wrap_period());
                    assert(before[k] + wraps_before[k] * wrap_period() == wins_delta(*self, won_before, win_type, k));
                    assert(deltas@[k] == win_delta(
                        base_points_spec(han, fu),
                        winner as int,
                        self.dealer as int,
                        win_type,
                        self.honba as int,
                        self.table_riichi_sticks as int,
                        k,
                    ));
                }
            }
            i = i + 1;
        }
        proof {
            assert forall|k: int| 0 <= k < 4 && i32::MIN <= wins_delta(*old(self), events@, win_type, k) <= i32::MAX
                implies #[trigger] combined@[k] == wins_delta(*old(self), events@, win_type, k) by {
                if wraps[k] > 0 || wraps[k] < 0 {
                    assert(wraps[k] * wrap_period() >= wrap_period() || wraps[k] * wrap_period() <= -wrap_period())
                        by (nonlinear_arith)
                        requires
                            wraps[k] > 0 || wraps[k] < 0,
                            wrap_period() == 0x1_0000_0000,
                    ;
                }
            }
        }
        let ghost won = events@;
        self.apply_deltas(&combined);
        self.table_riichi_sticks = 0;
        self.phase = HandPhase::Ended;
        self.reaction = None;
        self.end_reason = Some(HandEndReason::Win { winners });
        events.push(Event::ScoresAdjusted { deltas: combined });
        proof {
            assert(events@.drop_last() =~= won);
        }
        Ok(events)
    }

    /// Ends the hand in an exhaustive draw, settling tenpai payments.
    pub fn resolve_exhaustive_draw(&mut self, prior: Vec<Event>) -> (r: Result<Vec<Event>, Error>)
        requires
            old(self).wf(),
        ensures
            final(self).wf(),
            r is Ok,
            final(self).phase == HandPhase::Ended,
            final(self).reaction is None,
            final(self).end_reason == Some(HandEndReason::ExhaustiveDraw),
            final(self).hands == old(self).hands,
            final(self).discards == old(self).discards,
            final(self).wall == old(self).wall,
            r matches Ok(ev) ==> ev@.len() == prior@.len() + 1 && ev@.drop_last() == prior@ && ev@.last() matches Event::ExhaustiveDraw { .. },
            r matches Ok(ev) ==> (ev@.last() matches Event::ExhaustiveDraw { deltas } && forall|k: int|
                0 <= k < 4 ==> {
                    &&& #[trigger] deltas@[k] == draw_delta(tenpai_seats(*old(self)), k)
                    &&& (i32::MIN <= old(self).scores@[k] + deltas@[k] <= i32::MAX ==> final(self).scores@[k]
                        == old(self).scores@[k] + deltas@[k])
                }),
    {
        let mut prior = prior;
        let rules = match RulesRegistry::get(self.config.profile) {
            Ok(p) => p,
            Err(e) => {
                proof {
                    assert(false);
                }
                return Err(e);
            },
        };
        let deltas = rules.score_exhaustive_draw(self, &self.config);
        self.apply_deltas(&deltas);
        self.phase = HandPhase::Ended;
        self.reaction = None;
        self.end_reason = Some(HandEndReason::ExhaustiveDraw);
        let ghost before = prior@;
        prior.push(Event::ExhaustiveDraw { deltas });
        proof {
            assert(prior@.drop_last() =~= before);
        }
        Ok(prior)
    }

    /// Declares riichi: pays the stick, then discards `discard` (which must keep the hand tenpai).
    pub fn apply_riichi(&mut self, seat: usize, discard: Tile) -> (r: Result<Vec<Event>, Error>)
        requires
            old(self).wf(),
            seat < 4,
        ensures
            final(self).wf(),
            !riichi_allowed(*old(self), seat as int) ==> (r matches Err(Error::CannotDeclareRiichi)),
            riichi_allowed(*old(self), seat as int) && !(old(self).hands@[seat as int].concealed@.contains(discard)
                && tenpai_with(remove_first(old(self).hands@[seat as int].concealed@, discard), 0)) ==> (r matches Err(
                Error::IllegalAction { .. },
            )),
            r is Err ==> *final(self) == *old(self),
            r is Ok <==> riichi_allowed(*old(self), seat as int) && old(self).hands@[seat as int].concealed@.contains(discard)
                && tenpai_with(remove_first(old(self).hands@[seat as int].concealed@, discard), 0),
            r is Ok ==> riichi_declared(*old(self), seat, discard, *final(self)),
            r matches Ok(ev) ==> replays_to(*old(self), ev@, *final(self)),
    {
        if !self.can_declare_riichi(seat) {
            return Err(Error::CannotDeclareRiichi);
        }
        let ok = match RulesRegistry::get(self.config.profile) {
            Ok(rules) => rules.is_riichi_discard(&self.hands[seat], discard, &self.config),
            Err(_) => false,
        };
        if !ok {
            return Err(Error::IllegalAction { action: Action::Riichi { discard }, phase: self.phase });
        }
        let is_first_discard = self.first_discards[seat].is_none();
        self.scores[seat] = self.scores[seat] - 1000;
        self.table_riichi_sticks = self.table_riichi_sticks.wrapping_add(1);
        self.riichi[seat] = true;
        self.ippatsu_live[seat] = true;
        if is_first_discard && !self.calls_made {
            self.double_riichi[seat] = true;
        }
        let ghost mid = *self;
        let r = self.apply_discard_inner(seat, discard, true);
        proof {
            assert(r is Ok);
            lemma_replays_unchanged(*old(self), Seq::empty(), mid);
            lemma_replays_concat(*old(self), Seq::empty(), mid, r->Ok_0@, *self);
            assert(Seq::<Event>::empty() + r->Ok_0@ =~= r->Ok_0@);
        }
        r
    }
}

} // verus!
