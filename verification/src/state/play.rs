//! Drawing, discarding and the bookkeeping around them.

use vstd::prelude::*;

use crate::error::Error;
use crate::event::Event;
use crate::game::{AbortiveDrawKind, AbortiveTrigger};
use crate::hand::{Hand, hand_sizes_ok, hand_total, meld_tile_count, remove_first};
use crate::rules::RulesRegistry;
use crate::rules::traits::RulesProfile;
use crate::rules::standard::abortive::abortive_of;
use crate::state::hand_state::{HandEndReason, HandPhase, HandState, hands_total, river_total};
use crate::state::reaction::{ReactionKind, ReactionState};
use crate::state::replay::{lemma_drew_replays, lemma_discarded_replays, lemma_replays_concat, lemma_replays_unchanged, replays_to};
use crate::tile::{Tile, sorted};

verus! {

broadcast use {vstd::seq_lib::group_to_multiset_ensures, vstd::multiset::group_multiset_axioms};

pub proof fn lemma_hands_total_update(hs: Seq<Hand>, i: int, h: Hand)
    requires
        0 <= i < hs.len(),
    ensures
        hands_total(hs.update(i, h)) == hands_total(hs) - hand_total(hs[i]) + hand_total(h),
    decreases hs.len(),
{
    if i == hs.len() - 1 {
        assert(hs.update(i, h).drop_last() =~= hs.drop_last());
    } else {
        lemma_hands_total_update(hs.drop_last(), i, h);
        assert(hs.update(i, h).drop_last() =~= hs.drop_last().update(i, h));
    }
}

pub proof fn lemma_river_total_update(ds: Seq<Vec<Tile>>, i: int, d: Vec<Tile>)
    requires
        0 <= i < ds.len(),
    ensures
        river_total(ds.update(i, d)) == river_total(ds) - ds[i]@.len() + d@.len(),
    decreases ds.len(),
{
    if i == ds.len() - 1 {
        assert(ds.update(i, d).drop_last() =~= ds.drop_last());
    } else {
        lemma_river_total_update(ds.drop_last(), i, d);
        assert(ds.update(i, d).drop_last() =~= ds.drop_last().update(i, d));
    }
}

/// The abortive draw a discard of `tile` by `seat` causes in `s` (the state with the discard
/// recorded): four winds first, then, for a riichi discard, four riichis.
pub open spec fn discard_abort(s: HandState, seat: usize, tile: Tile, riichi: bool) -> Option<AbortiveDrawKind> {
    match abortive_of(s, s.config, AbortiveTrigger::FirstDiscard { seat, tile }) {
        Some(k) => Some(k),
        None => if riichi {
            abortive_of(s, s.config, AbortiveTrigger::RiichiDeclared)
        } else {
            None
        },
    }
}

/// What a draw by `seat` makes of the table of `a` in `b`: the first live tile joins the
/// seat's concealed tiles; its melds, the other hands and the rivers stay as they were.
pub open spec fn drew(a: HandState, seat: usize, b: HandState) -> bool {
    &&& a.phase == HandPhase::Draw
    &&& a.wall.live_seq().len() > 0
    &&& a.hands@[seat as int].concealed@.len() < 136
    &&& b.wall.live_seq() == a.wall.live_seq().drop_first()
    &&& b.hands@[seat as int].concealed@.to_multiset() == a.hands@[seat as int].concealed@.to_multiset().insert(
        a.wall.live_seq()[0],
    )
    &&& b.hands@[seat as int].melds@ == a.hands@[seat as int].melds@
    &&& forall|i: int| 0 <= i < 4 && i != seat ==> #[trigger] b.hands@[i] == a.hands@[i]
    &&& b.discards == a.discards
}

/// What a discard of `tile` by `seat` makes of the table of `a` in `b`: the tile leaves the
/// seat's concealed tiles for its river; the rest of the table stays as it was.
pub open spec fn discarded(a: HandState, seat: usize, tile: Tile, b: HandState) -> bool {
    &&& a.phase == HandPhase::Discard
    &&& a.hands@[seat as int].concealed@.contains(tile)
    &&& b.hands@[seat as int].concealed@ == remove_first(a.hands@[seat as int].concealed@, tile)
    &&& b.hands@[seat as int].melds@ == a.hands@[seat as int].melds@
    &&& forall|i: int| 0 <= i < 4 && i != seat ==> #[trigger] b.hands@[i] == a.hands@[i]
    &&& b.discards@[seat as int]@ == a.discards@[seat as int]@.push(tile)
    &&& forall|i: int| 0 <= i < 4 && i != seat ==> #[trigger] b.discards@[i] == a.discards@[i]
    &&& b.wall == a.wall
}

/// Every field but the hands, rivers, wall and turn bookkeeping is as before.
pub open spec fn same_flags(a: HandState, b: HandState) -> bool {
    &&& a.dealer == b.dealer
    &&& a.config == b.config
    &&& a.scores == b.scores
    &&& a.riichi == b.riichi
    &&& a.table_riichi_sticks == b.table_riichi_sticks
    &&& a.honba == b.honba
    &&& a.double_riichi == b.double_riichi
    &&& a.riichi_furiten == b.riichi_furiten
    &&& a.calls_made == b.calls_made
}

impl HandState {
    /// Ends every ippatsu chance (a call or a kan happened).
    pub fn void_ippatsu(&mut self)
        ensures
            *final(self) == (HandState { ippatsu_live: [false, false, false, false], ..*old(self) }),
    {
        self.ippatsu_live = [false, false, false, false];
    }

    /// Adds each seat's score change.
    pub fn apply_deltas(&mut self, deltas: &[i32; 4])
        ensures
            forall|i: int|
                0 <= i < 4 ==> #[trigger] final(self).scores@[i] == vstd::wrapping::i32_specs::wrapping_add(
                    old(self).scores@[i],
                    deltas@[i],
                ),
            forall|i: int|
                0 <= i < 4 && i32::MIN <= old(self).scores@[i] + deltas@[i] <= i32::MAX ==> #[trigger] final(self).scores@[i]
                    == old(self).scores@[i] + deltas@[i],
            *final(self) == (HandState { scores: final(self).scores, ..*old(self) }),
    {
        let mut i: usize = 0;
        while i < 4
            invariant
                i <= 4,
                forall|k: int|
                    0 <= k < i && i32::MIN <= old(self).scores@[k] + deltas@[k] <= i32::MAX ==> #[trigger] self.scores@[k]
                        == old(self).scores@[k] + deltas@[k],
                forall|k: int| i <= k < 4 ==> #[trigger] self.scores@[k] == old(self).scores@[k],
                forall|k: int|
                    0 <= k < i ==> #[trigger] self.scores@[k] == vstd::wrapping::i32_specs::wrapping_add(
                        old(self).scores@[k],
                        deltas@[k],
                    ),
                *self == (HandState { scores: self.scores, ..*old(self) }),
            decreases 4 - i,
        {
            self.scores[i] = self.scores[i].wrapping_add(deltas[i]);
            i = i + 1;
        }
    }

    /// Ends the hand in an abortive draw, appending its event.
    pub fn resolve_abortive_draw(&mut self, kind: AbortiveDrawKind, prior: Vec<Event>) -> (r: Result<Vec<Event>, Error>)
        requires
            old(self).wf(),
        ensures
            final(self).wf(),
            r matches Ok(ev) && ev@ == prior@.push(Event::AbortiveDraw { kind }),
            *final(self) == (HandState {
                phase: HandPhase::Ended,
                reaction: None,
                end_reason: Some(HandEndReason::AbortiveDraw(kind)),
                ..*old(self)
            }),
    {
        let mut prior = prior;
        self.phase = HandPhase::Ended;
        self.reaction = None;
        self.end_reason = Some(HandEndReason::AbortiveDraw(kind));
        prior.push(Event::AbortiveDraw { kind });
        Ok(prior)
    }

    /// Four winds discarded first by all four seats, if the rules enable it.
    pub fn check_abortive_after_discard(&self, seat: usize, tile: Tile) -> (r: Option<AbortiveDrawKind>)
        requires
            self.wf(),
        ensures
            r == abortive_of(*self, self.config, AbortiveTrigger::FirstDiscard { seat, tile }),
    {
        match RulesRegistry::get(self.config.profile) {
            Ok(rules) => rules.detect_abortive(self, &self.config, AbortiveTrigger::FirstDiscard { seat, tile }),
            Err(_) => None,
        }
    }

    /// Four kans, if the rules enable it.
    pub fn check_abortive_after_kan(&self) -> (r: Option<AbortiveDrawKind>)
        requires
            self.wf(),
        ensures
            r == abortive_of(*self, self.config, AbortiveTrigger::KanDeclared),
    {
        match RulesRegistry::get(self.config.profile) {
            Ok(rules) => rules.detect_abortive(self, &self.config, AbortiveTrigger::KanDeclared),
            Err(_) => None,
        }
    }

    /// Four riichis, if the rules enable it.
    pub fn check_abortive_after_riichi(&self) -> (r: Option<AbortiveDrawKind>)
        requires
            self.wf(),
        ensures
            r == abortive_of(*self, self.config, AbortiveTrigger::RiichiDeclared),
    {
        match RulesRegistry::get(self.config.profile) {
            Ok(rules) => rules.detect_abortive(self, &self.config, AbortiveTrigger::RiichiDeclared),
            Err(_) => None,
        }
    }

    /// Draws the next live-wall tile into the hand of `seat`.
    pub fn apply_draw(&mut self, seat: usize) -> (r: Result<Vec<Event>, Error>)
        requires
            old(self).wf(),
            seat < 4,
        ensures
            final(self).wf(),
            old(self).phase != HandPhase::Draw ==> (r matches Err(Error::WrongPhase { expected: HandPhase::Draw, actual })
                && actual == old(self).phase),
            old(self).phase == HandPhase::Draw && old(self).wall.live_seq().len() == 0 ==> (r matches Err(Error::LiveWallExhausted)),
            old(self).phase == HandPhase::Draw && old(self).wall.live_seq().len() > 0
                && old(self).hands@[seat as int].concealed@.len() >= 136 ==> (r matches Err(Error::InvalidHandShape { .. })),
            r is Err ==> *final(self) == *old(self),
            r is Ok <==> old(self).phase == HandPhase::Draw && old(self).wall.live_seq().len() > 0
                && old(self).hands@[seat as int].concealed@.len() < 136,
            r is Ok ==> drew(*old(self), seat, *final(self)),
            r is Ok ==> final(self).hands@[seat as int].concealed@.len() == old(self).hands@[seat as int].concealed@.len() + 1,
            r matches Ok(ev) ==> replays_to(*old(self), ev@, *final(self)),
            r matches Ok(ev) ==> {
                let t = old(self).wall.live_seq()[0];
                &&& ev@ == seq![Event::Drawn { seat, tile: t }]
                &&& final(self).wall.live_seq() == old(self).wall.live_seq().drop_first()
                &&& final(self).wall.dead_seq() == old(self).wall.dead_seq()
                &&& final(self).wall.rinshans() == old(self).wall.rinshans()
                &&& final(self).hands@[seat as int].concealed@.to_multiset() == old(self).hands@[seat as int].concealed@.to_multiset().insert(t)
                &&& sorted(final(self).hands@[seat as int].concealed@)
                &&& final(self).hands@[seat as int].melds@ == old(self).hands@[seat as int].melds@
                &&& forall|i: int| 0 <= i < 4 && i != seat ==> #[trigger] final(self).hands@[i] == old(self).hands@[i]
                &&& final(self).discards == old(self).discards
                &&& final(self).last_draw == Some(t)
                &&& !final(self).is_rinshan_draw
                &&& final(self).phase == HandPhase::Discard
                &&& final(self).current_actor == old(self).current_actor
                &&& final(self).reaction == old(self).reaction
                &&& !final(self).temporary_furiten@[seat as int]
                &&& same_flags(*old(self), *final(self))
                &&& final(self).accounted() == old(self).accounted()
            },
    {
        if self.phase != HandPhase::Draw {
            return Err(Error::WrongPhase { expected: HandPhase::Draw, actual: self.phase });
        }
        if self.wall.live_remaining() == 0 {
            return Err(Error::LiveWallExhausted);
        }
        if self.hands[seat].concealed.len() >= 136 {
            let c = self.hands[seat].concealed.len();
            let m = self.hands[seat].melds.len();
            return Err(Error::InvalidHandShape { concealed: c, melds: m });
        }
        let ghost old_hands = self.hands@;
        let ghost before = *self;
        let tile = match self.wall.draw_live() {
            Ok(t) => t,
            Err(e) => {
                proof {
                    assert(false);
                }
                return Err(e);
            },
        };
        self.hands[seat].push_concealed(tile);
        self.hands[seat].sort_concealed();
        self.last_draw = Some(tile);
        self.is_rinshan_draw = false;
        self.live_draws[seat] = self.live_draws[seat].wrapping_add(1);
        self.temporary_furiten[seat] = false;
        self.phase = HandPhase::Discard;
        proof {
            let h = self.hands@[seat as int];
            assert(hand_total(h) == hand_total(old_hands[seat as int]) + 1);
            assert(self.hands@ == old_hands.update(seat as int, h));
            lemma_hands_total_update(old_hands, seat as int, h);
            assert forall|i: int| 0 <= i < 4 implies hand_sizes_ok(#[trigger] self.hands@[i]) by {
                if i == seat {
                    assert(hand_sizes_ok(old_hands[i]));
                }
            }
        }
        let mut events = Vec::new();
        events.push(Event::Drawn { seat, tile });
        proof {
            lemma_drew_replays(before, seat, *self);
            assert(events@ =~= seq![Event::Drawn { seat, tile: before.wall.live_seq()[0] }]);
        }
        Ok(events)
    }

    /// Takes `tile` from the hand of `seat` into its river, then ends the hand in an abortive
    /// draw (four winds; four riichis after a riichi discard) or opens the reaction window.
    #[verifier::rlimit(40)]
    pub fn apply_discard_inner(&mut self, seat: usize, tile: Tile, riichi: bool) -> (r: Result<Vec<Event>, Error>)
        requires
            old(self).wf(),
            seat < 4,
        ensures
            final(self).wf(),
            old(self).phase != HandPhase::Discard ==> (r matches Err(Error::WrongPhase { expected: HandPhase::Discard, actual })
                && actual == old(self).phase),
            old(self).phase == HandPhase::Discard && !old(self).hands@[seat as int].concealed@.contains(tile) ==> (r matches Err(
                Error::TileNotInHand { tile: t },
            ) && t == tile),
            r is Err ==> *final(self) == *old(self),
            r is Ok <==> old(self).phase == HandPhase::Discard && old(self).hands@[seat as int].concealed@.contains(tile),
            r is Ok ==> discarded(*old(self), seat, tile, *final(self)),
            r matches Ok(ev) ==> ev@.contains(Event::Discarded { seat, tile }),
            r matches Ok(ev) ==> replays_to(*old(self), ev@, *final(self)),
            r is Ok ==> final(self).temporary_furiten == old(self).temporary_furiten,
            r is Ok && !riichi && !(tile.kind is Wind) ==> final(self).phase == HandPhase::Reaction,
            r is Ok ==> {
                &&& final(self).hands@[seat as int].concealed@ == remove_first(old(self).hands@[seat as int].concealed@, tile)
                &&& final(self).hands@[seat as int].melds@ == old(self).hands@[seat as int].melds@
                &&& forall|i: int| 0 <= i < 4 && i != seat ==> #[trigger] final(self).hands@[i] == old(self).hands@[i]
                &&& final(self).discards@[seat as int]@ == old(self).discards@[seat as int]@.push(tile)
                &&& forall|i: int| 0 <= i < 4 && i != seat ==> #[trigger] final(self).discards@[i] == old(self).discards@[i]
                &&& final(self).last_discard == Some((seat, tile))
                &&& final(self).last_draw is None
                &&& final(self).wall == old(self).wall
                &&& same_flags(*old(self), *final(self))
                &&& final(self).ippatsu_live == old(self).ippatsu_live
                &&& final(self).accounted() == old(self).accounted()
                &&& (final(self).phase == HandPhase::Ended || (final(self).phase == HandPhase::Reaction
                    && final(self).reaction == Some(ReactionState::new_spec(seat, tile))
                    && final(self).current_actor == (seat + 1) % 4))
            },
            r is Ok ==> final(self).first_discards@ == (if old(self).first_discards@[seat as int] is None {
                old(self).first_discards@.update(seat as int, Some(tile))
            } else {
                old(self).first_discards@
            }),
            r is Ok ==> (final(self).phase == HandPhase::Ended <==> discard_abort(*final(self), seat, tile, riichi) is Some),
            r is Ok ==> (discard_abort(*final(self), seat, tile, riichi) matches Some(k) ==> final(self).end_reason == Some(
                HandEndReason::AbortiveDraw(k),
            )),
    {
        if self.phase != HandPhase::Discard {
            return Err(Error::WrongPhase { expected: HandPhase::Discard, actual: self.phase });
        }
        if !self.hands[seat].concealed.contains(tile) {
            return Err(Error::TileNotInHand { tile });
        }
        let ghost old_hands = self.hands@;
        let ghost old_discards = self.discards@;
        let ghost before = *self;
        match self.hands[seat].remove_concealed(tile) {
            Ok(()) => {},
            Err(e) => {
                proof {
                    assert(false);
                }
                return Err(e);
            },
        }
        self.discards[seat].push(tile);
        self.last_draw = None;
        self.last_discard = Some((seat, tile));
        if self.first_discards[seat].is_none() {
            self.first_discards[seat] = Some(tile);
        }
        if seat == self.dealer {
            self.is_dealer_first_turn = false;
        }
        proof {
            let h = self.hands@[seat as int];
            assert(old_hands[seat as int].concealed@.contains(tile));
            let oc = old_hands[seat as int].concealed@;
            assert(h.concealed@.to_multiset() =~= oc.to_multiset().remove(tile));
            assert(vstd::multiset::Multiset::singleton(tile).subset_of(oc.to_multiset())) by {
                assert forall|v: Tile| vstd::multiset::Multiset::singleton(tile).count(v) <= oc.to_multiset().count(v) by {
                }
            }
            assert(h.concealed@.to_multiset().len() == h.concealed@.len());
            assert(oc.to_multiset().len() == oc.len());
            assert(h.concealed@.len() == oc.len() - 1);
            assert(hand_total(h) == hand_total(old_hands[seat as int]) - 1);
            assert(self.hands@ == old_hands.update(seat as int, h));
            lemma_hands_total_update(old_hands, seat as int, h);
            assert(self.discards@ == old_discards.update(seat as int, self.discards@[seat as int]));
            lemma_river_total_update(old_discards, seat as int, self.discards@[seat as int]);
            assert forall|i: int| 0 <= i < 4 implies hand_sizes_ok(#[trigger] self.hands@[i]) by {
                if i == seat {
                    assert(hand_sizes_ok(old_hands[i]));
                }
            }
        }
        let ghost mid = *self;
        let mut events = Vec::new();
        if riichi {
            events.push(Event::RiichiDeclared { seat, discard: tile });
        }
        events.push(Event::Discarded { seat, tile });
        let ghost k = events@.len() - 1;
        assert(events@[k] == Event::Discarded { seat, tile });
        proof {
            let pre: Seq<Event> = if riichi { seq![Event::RiichiDeclared { seat, discard: tile }] } else { Seq::empty() };
            lemma_replays_unchanged(before, pre, before);
            lemma_discarded_replays(before, seat, tile, mid);
            lemma_replays_concat(before, pre, before, seq![Event::Discarded { seat, tile }], mid);
            assert(events@ =~= pre + seq![Event::Discarded { seat, tile }]);
        }
        if let Some(kind) = self.check_abortive_after_discard(seat, tile) {
            let r = self.resolve_abortive_draw(kind, events);
            proof {
                assert(self.first_discards == mid.first_discards && self.config == mid.config);
                assert(abortive_of(*self, self.config, AbortiveTrigger::FirstDiscard { seat, tile }) == abortive_of(
                    mid,
                    mid.config,
                    AbortiveTrigger::FirstDiscard { seat, tile },
                ));
                assert(r->Ok_0@[k] == Event::Discarded { seat, tile });
                lemma_replays_unchanged(mid, seq![Event::AbortiveDraw { kind }], *self);
                lemma_replays_concat(before, events@, mid, seq![Event::AbortiveDraw { kind }], *self);
                assert(r->Ok_0@ =~= events@ + seq![Event::AbortiveDraw { kind }]);
            }
            return r;
        }
        if riichi {
            if let Some(kind) = self.check_abortive_after_riichi() {
                let r = self.resolve_abortive_draw(kind, events);
                proof {
                    assert(self.first_discards == mid.first_discards && self.config == mid.config && self.riichi == mid.riichi);
                    assert(abortive_of(*self, self.config, AbortiveTrigger::FirstDiscard { seat, tile }) == abortive_of(
                        mid,
                        mid.config,
                        AbortiveTrigger::FirstDiscard { seat, tile },
                    ));
                    assert(abortive_of(*self, self.config, AbortiveTrigger::RiichiDeclared) == abortive_of(
                        mid,
                        mid.config,
                        AbortiveTrigger::RiichiDeclared,
                    ));
                    assert(r->Ok_0@[k] == Event::Discarded { seat, tile });
                    lemma_replays_unchanged(mid, seq![Event::AbortiveDraw { kind }], *self);
                    lemma_replays_concat(before, events@, mid, seq![Event::AbortiveDraw { kind }], *self);
                    assert(r->Ok_0@ =~= events@ + seq![Event::AbortiveDraw { kind }]);
                }
                return r;
            }
        }
        self.current_actor = (seat + 1) % 4;
        self.phase = HandPhase::Reaction;
        self.reaction = Some(ReactionState::new(seat, tile));
        proof {
            assert(self.first_discards == mid.first_discards && self.config == mid.config && self.riichi == mid.riichi);
            assert(abortive_of(*self, self.config, AbortiveTrigger::FirstDiscard { seat, tile }) == abortive_of(
                mid,
                mid.config,
                AbortiveTrigger::FirstDiscard { seat, tile },
            ));
            assert(abortive_of(*self, self.config, AbortiveTrigger::RiichiDeclared) == abortive_of(
                mid,
                mid.config,
                AbortiveTrigger::RiichiDeclared,
            ));
            lemma_replays_unchanged(mid, Seq::empty(), *self);
            lemma_replays_concat(before, events@, mid, Seq::empty(), *self);
            assert(events@ + Seq::<Event>::empty() =~= events@);
        }
        Ok(events)
    }
}

} // verus!
