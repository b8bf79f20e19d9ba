//! The entry point of a hand in progress: routing each submitted action by phase and seat.

use vstd::prelude::*;

use crate::action::{Action, KanIntent};
use crate::error::Error;
use crate::event::Event;
use crate::hand::{hand_sizes_ok, remove_first};
use crate::scoring::WinType;
use crate::state::calls::same_face;
use crate::state::claims::{all_passed, call_valid, melds_total, ron_by_only, settles};
use crate::state::replay::{lemma_replays_concat, lemma_replays_unchanged, lemma_table_lens, lemma_table_unchanged, replays_to, table_of};
use crate::hand::lemma_remove_first_multiset;
use crate::state::hand_state::{HandEndReason, HandPhase, HandState};
use crate::state::reaction::{ReactionKind, ReactionState, answered_ron, complete};
use crate::state::wins::{furiten, riichi_allowed, ron_allowed};
use crate::state::calls::{CallKind, kakan_allowed, next_seat_of};
use crate::state::claims::{calls_settled, kakan_declared, passes_settled, ron_winners_of, rons_settled, settled_as};
use crate::state::wins::{lemma_wins_delta_same_table, wins_delta};
use crate::state::play::discard_abort;
use crate::state::reaction::call_kind_of;
use crate::state::wins::riichi_declared;
use crate::rules::standard::win::{tenpai_with, winning_hand};
use crate::rules::standard::abortive::abortive_of;
use crate::tile::Tile;
use crate::hand::MeldKind;
use crate::wall::{kan_room, rinshan_pos};
use crate::game::{AbortiveDrawKind, AbortiveTrigger};

verus! {

/// `seat` may answer the open window with `action`: a pass, a ron it can take, or a call it
/// can make.
pub open spec fn reaction_accepted(s: HandState, seat: int, action: Action) -> bool {
    &&& s.reaction is Some
    &&& seat != s.reaction->0.discarder
    &&& s.reaction->0.responses@[seat] is None
    &&& match action {
        Action::Pass => true,
        Action::Ron => ron_allowed(s, seat),
        _ => call_valid(s, seat, action),
    }
}

/// Every seat but the discarder has answered once `seat` answers too.
pub open spec fn complete_after(r: ReactionState, seat: int) -> bool {
    forall|s: int| 0 <= s < 4 ==> s == r.discarder || s == seat || (#[trigger] r.responses@[s]) is Some
}

/// `b` is `a` with the answer `action` of `seat` recorded.
pub open spec fn recorded(a: ReactionState, b: ReactionState, seat: int, action: Action) -> bool {
    &&& b.responses@ == a.responses@.update(seat, Some(action))
    &&& b.discarder == a.discarder
    &&& b.tile == a.tile
    &&& b.kind == a.kind
    &&& b.kakan_meld_index == a.kakan_meld_index
}

/// `seat` acts on its own turn: the hand is in its draw or discard phase and `seat` is the
/// current actor.
pub open spec fn turn_action(s: HandState, seat: int) -> bool {
    (s.phase == HandPhase::Draw || s.phase == HandPhase::Discard) && seat == s.current_actor
}

/// Whether `apply` accepts `action` from `seat` acting on its own turn: drawing from a live
/// wall, discarding or declaring riichi with a tile it holds, a tsumo on a winning draw, a
/// closed kan on four of a face with room in the dead wall, an added kan on one of its pons,
/// or the dealer's nine-terminals abort.
pub open spec fn turn_accepts(s: HandState, seat: int, action: Action) -> bool {
    let c = s.hands@[seat].concealed@;
    match action {
        Action::Draw => s.phase == HandPhase::Draw && s.wall.live_seq().len() > 0 && c.len() < 136,
        Action::Discard(t) => s.phase == HandPhase::Discard && c.contains(t),
        Action::Riichi { discard } => riichi_allowed(s, seat) && c.contains(discard) && tenpai_with(
            remove_first(c, discard),
            0,
        ),
        Action::Tsumo => s.last_draw is Some && winning_hand(s.hands@[seat], s.last_draw),
        Action::Kan(KanIntent::Closed { tile }) => same_face(c, tile).len() >= 4 && s.hands@[seat].melds@.len() < 4
            && kan_room(s.wall),
        Action::Kan(KanIntent::Added { meld_index }) => s.phase == HandPhase::Discard && kakan_allowed(
            s.hands@[seat],
            meld_index as int,
        ),
        Action::AbortiveNineTerminals => seat == s.dealer && s.is_dealer_first_turn && abortive_of(
            s,
            s.config,
            AbortiveTrigger::DealerFirstTurn,
        ) == Some(AbortiveDrawKind::NineTerminals),
        _ => false,
    }
}

/// A hand whose open window, if any, is on a discard that every answering seat has passed.
pub open spec fn replay_ready(s: HandState) -> bool {
    s.phase == HandPhase::Reaction ==> (s.reaction matches Some(r) && all_passed(r))
}

/// Each seat holds at most fourteen concealed tiles, fifteen for the current actor in its
/// discard phase, and a draw phase finds a live tile.
pub open spec fn play_sizes_ok(s: HandState) -> bool {
    &&& forall|i: int|
        0 <= i < 4 ==> (#[trigger] s.hands@[i]).concealed@.len() <= if s.phase == HandPhase::Discard && i
            == s.current_actor {
            15int
        } else {
            14int
        }
    &&& s.phase == HandPhase::Draw ==> s.wall.live_seq().len() > 0
}

/// What answering `action` from `seat` to a window where only `w` may have answered ron does:
/// while others still owe an answer the window just records it, leaving hands, rivers and the
/// other seats' furiten as they were; once all have answered, a ron by `w` succeeds exactly
/// when the discarder's river holds the tile and `w`'s hand wins on it, and ends the hand with
/// `w` the only winner.
pub open spec fn ron_answer_outcome(s: HandState, seat: int, action: Action, w: int, ok: bool, t: HandState) -> bool {
    let rr = s.reaction->0;
    &&& !complete_after(rr, seat) ==> {
        &&& ok
        &&& t.phase == s.phase
        &&& t.reaction matches Some(fr) && ron_by_only(fr, w) && fr.tile == rr.tile && fr.discarder == rr.discarder
            && fr.responses@[seat] == Some(action) && (forall|k: int| 0 <= k < 4 && k != seat ==> #[trigger] fr.responses@[k] == rr.responses@[k])
        &&& t.hands == s.hands
        &&& t.discards == s.discards
        &&& forall|k: int|
            0 <= k < 4 && (k != seat || action != Action::Pass) ==> #[trigger] t.temporary_furiten@[k]
                == s.temporary_furiten@[k] && t.riichi_furiten@[k] == s.riichi_furiten@[k]
    }
    &&& complete_after(rr, seat) && (action == Action::Ron || answered_ron(rr, w)) ==> {
        &&& ok <==> s.discards@[rr.discarder as int]@.len() > 0 && winning_hand(s.hands@[w], Some(rr.tile))
        &&& ok ==> t.phase == HandPhase::Ended && (t.end_reason matches Some(HandEndReason::Win { winners })
            && winners@ == seq![w as usize])
    }
}

/// A hand in its reaction phase has a window still waiting for an answer.
pub open spec fn window_open(s: HandState) -> bool {
    s.phase == HandPhase::Reaction ==> s.reaction is Some && !complete(s.reaction->0)
}

/// A window nobody has answered yet is still open.
pub proof fn lemma_fresh_window_open(r: ReactionState)
    requires
        r.discarder < 4,
        forall|s: int| 0 <= s < 4 ==> (#[trigger] r.responses@[s]) is None,
    ensures
        !complete(r),
{
    let s0 = (r.discarder + 1) % 4;
    assert(r.responses@[s0 as int] is None);
}

/// A quantity every draw, discard and settled window lowers while a hand is played out:
/// melds weigh most, then rinshan draws, then live-wall tiles, then the phase.
pub open spec fn progress_measure(s: HandState) -> nat {
    let rank: int = match s.phase {
        HandPhase::Ended => 0,
        HandPhase::Draw => 1,
        HandPhase::Reaction => 2,
        HandPhase::Discard => 3,
    };
    (1000 * (16 - melds_total(s)) + 4 * (10 - s.wall.rinshans()) + 3 * s.wall.live_seq().len() + rank) as nat
}

proof fn lemma_measure_bounds(s: HandState)
    requires
        s.wf(),
    ensures
        melds_total(s) <= 16,
        s.wall.rinshans() <= 10,
        s.wall.live_seq().len() <= 122,
{
    assert(hand_sizes_ok(s.hands@[0]));
    assert(hand_sizes_ok(s.hands@[1]));
    assert(hand_sizes_ok(s.hands@[2]));
    assert(hand_sizes_ok(s.hands@[3]));
}

/// The tile count kept by a move: unchanged, or one less when a ron ended the hand from
/// an open window (the won discard leaves the river, a robbed kakan tile leaves the window).
pub open spec fn conserved_by(old: HandState, new: HandState) -> bool {
    ||| new.accounted() == old.accounted()
    ||| (old.phase == HandPhase::Reaction && old.reaction is Some && (new.end_reason matches Some(HandEndReason::Win { .. }))
        && new.accounted() == old.accounted() - 1 && new.phase == HandPhase::Ended)
}

impl HandState {
    /// Records the answer of `seat` to the open window, and settles the window once every
    /// seat has answered.
    #[verifier::rlimit(40)]
    pub(crate) fn apply_reaction(&mut self, seat: usize, action: Action) -> (r: Result<Vec<Event>, Error>)
        requires
            old(self).wf(),
            old(self).phase == HandPhase::Reaction,
            seat < 4,
        ensures
            final(self).wf(),
            old(self).reaction is None ==> r == Err::<Vec<Event>, Error>(Error::WrongPhase {
                expected: HandPhase::Reaction,
                actual: old(self).phase,
            }),
            old(self).reaction matches Some(rr) && seat == rr.discarder ==> r == Err::<Vec<Event>, Error>(
                Error::NotReactingSeat { seat },
            ),
            old(self).reaction matches Some(rr) && seat != rr.discarder && rr.responses@[seat as int] is Some ==> r
                == Err::<Vec<Event>, Error>(Error::AlreadyResponded { seat }),
            old(self).can_respond_spec(seat) && action == Action::Ron && furiten(*old(self), seat as int, old(self).reaction->0.tile)
                ==> r == Err::<Vec<Event>, Error>(Error::Furiten),
            old(self).can_respond_spec(seat) && action == Action::Ron && !ron_allowed(*old(self), seat as int) && !furiten(
                *old(self),
                seat as int,
                old(self).reaction->0.tile,
            ) ==> r == Err::<Vec<Event>, Error>(Error::CannotWin),
            old(self).can_respond_spec(seat) && (action matches Action::Chi { .. }) && seat != next_seat_of(
                old(self).reaction->0.discarder as int,
            ) ==> (r matches Err(Error::InvalidCall { kind: CallKind::Chi, .. })),
            old(self).can_respond_spec(seat) && action is Pon && !call_valid(*old(self), seat as int, action) ==> (r matches Err(
                Error::InvalidCall { kind: CallKind::Pon, .. },
            )),
            old(self).can_respond_spec(seat) && action == Action::Kan(KanIntent::Open) && !call_valid(*old(self), seat as int, action)
                ==> (r matches Err(Error::InvalidCall { kind: CallKind::OpenKan, .. })),
            old(self).can_respond_spec(seat) && action != Action::Pass && action != Action::Ron && call_kind_of(action) is None
                ==> r == Err::<Vec<Event>, Error>(Error::IllegalAction { action, phase: HandPhase::Reaction }),
            !reaction_accepted(*old(self), seat as int, action) ==> r is Err && *final(self) == *old(self),
            reaction_accepted(*old(self), seat as int, action) && !complete_after(old(self).reaction->0, seat as int) ==> {
                &&& r matches Ok(ev) && ev@.len() == 0
                &&& final(self).reaction matches Some(fr) && recorded(old(self).reaction->0, fr, seat as int, action)
                &&& final(self).phase == old(self).phase
                &&& final(self).hands == old(self).hands
                &&& final(self).discards == old(self).discards
                &&& final(self).wall == old(self).wall
            },
            action == Action::Pass && reaction_accepted(*old(self), seat as int, action) && ron_allowed(*old(self), seat as int)
                && !complete_after(old(self).reaction->0, seat as int) ==> (if old(self).riichi@[seat as int] {
                final(self).riichi_furiten@[seat as int]
            } else {
                final(self).temporary_furiten@[seat as int]
            }),
            reaction_accepted(*old(self), seat as int, action) && complete_after(old(self).reaction->0, seat as int) && r is Ok
                ==> settles(*old(self), *final(self)),
            r is Ok ==> conserved_by(*old(self), *final(self)),
            forall|fr: ReactionState|
                #[trigger] recorded(old(self).reaction->0, fr, seat as int, action) && reaction_accepted(*old(self), seat as int, action)
                    && complete_after(old(self).reaction->0, seat as int) ==> settled_as(*old(self), fr, r, *final(self)),
            action == Action::Pass && (old(self).reaction matches Some(rr) && all_passed(rr)) && r is Ok ==> (r matches Ok(ev)
                && replays_to(*old(self), ev@, *final(self))),
            action == Action::Pass && reaction_accepted(*old(self), seat as int, action) && all_passed(old(self).reaction->0)
                ==> r is Ok && table_of(*final(self)) == table_of(*old(self)) && (final(self).phase == old(self).phase
                || final(self).phase == HandPhase::Ended || (final(self).phase == HandPhase::Draw
                && final(self).wall.live_seq().len() > 0)),
            forall|w: int|
                #[trigger] ron_by_only(old(self).reaction->0, w) && reaction_accepted(*old(self), seat as int, action) && (action
                    == Action::Pass || (action == Action::Ron && seat == w)) ==> ron_answer_outcome(
                    *old(self),
                    seat as int,
                    action,
                    w,
                    r is Ok,
                    *final(self),
                ),
    {
        let ghost start = *self;
        let reaction = match self.reaction {
            Some(rr) => rr,
            None => {
                return Err(Error::WrongPhase { expected: HandPhase::Reaction, actual: self.phase });
            },
        };
        if seat == reaction.discarder {
            return Err(Error::NotReactingSeat { seat });
        }
        if !reaction.can_respond(seat) {
            return Err(Error::AlreadyResponded { seat });
        }
        let is_ron = matches!(action, Action::Ron);
        let is_pass = matches!(action, Action::Pass);
        if is_ron {
            if self.is_furiten(seat, reaction.tile) {
                return Err(Error::Furiten);
            }
            if !self.can_ron(seat) {
                return Err(Error::CannotWin);
            }
        }
        if !is_pass && !is_ron {
            match self.validate_call_action(seat, action) {
                Ok(()) => {},
                Err(e) => {
                    return Err(e);
                },
            }
        }
        if is_pass && self.can_ron(seat) {
            self.mark_passed_win(seat);
        }
        let mut answered = reaction;
        answered.record(seat, action);
        self.reaction = Some(answered);
        proof {
            assert(answered.responses@ =~= reaction.responses@.update(seat as int, Some(action)));
        }
        proof {
            assert(self.hands == start.hands && self.discards == start.discards);
            assert forall|k: int| 0 <= k < 4 && (k != seat || action != Action::Pass) implies #[trigger] self.temporary_furiten@[k]
                == start.temporary_furiten@[k] && self.riichi_furiten@[k] == start.riichi_furiten@[k] by {}
            assert forall|v: int| #[trigger] ron_by_only(reaction, v) && (action == Action::Pass || (action == Action::Ron
                && seat == v)) implies ron_by_only(answered, v) by {
                assert forall|k: int| 0 <= k < 4 implies (#[trigger] answered.responses@[k]) is None
                    || answered.responses@[k] == Some(Action::Pass) || (k == v && answered.responses@[k] == Some(Action::Ron)) by {
                    if k != seat {
                        assert(answered.responses@[k] == reaction.responses@[k]);
                    }
                }
            }
        }
        if !answered.is_complete() {
            proof {
                lemma_replays_unchanged(start, Seq::empty(), *self);
                lemma_table_unchanged(start, *self);
                assert forall|v: int| #[trigger] ron_by_only(reaction, v) && reaction_accepted(start, seat as int, action)
                    && (action == Action::Pass || (action == Action::Ron && seat == v)) implies ron_answer_outcome(
                    start,
                    seat as int,
                    action,
                    v,
                    true,
                    *self,
                ) by {
                    assert(ron_by_only(answered, v));
                    assert forall|k: int| 0 <= k < 4 && k != seat implies #[trigger] answered.responses@[k]
                        == reaction.responses@[k] by {}
                    if complete_after(reaction, seat as int) {
                        assert forall|k: int| 0 <= k < 4 implies k == answered.discarder || (#[trigger] answered.responses@[k]) is Some by {
                            if k != seat {
                                assert(answered.responses@[k] == reaction.responses@[k]);
                                assert(k == reaction.discarder || reaction.responses@[k] is Some);
                            }
                        }
                        assert(complete(answered));
                    }
                    assert(!complete_after(reaction, seat as int));
                    assert(self.reaction == Some(answered));
                    assert(answered.tile == reaction.tile && answered.discarder == reaction.discarder);
                    assert(answered.responses@[seat as int] == Some(action));
                    assert(self.hands == start.hands);
                    assert(self.discards == start.discards);
                }
            }
            return Ok(Vec::new());
        }
        let ghost mid = *self;
        let r = self.resolve_reaction();
        proof {
            assert(mid.accounted() == start.accounted());
            assert forall|fr: ReactionState|
                #[trigger] recorded(reaction, fr, seat as int, action) && reaction_accepted(start, seat as int, action)
                    && complete_after(reaction, seat as int) implies settled_as(start, fr, r, *self) by {
                assert(fr.responses =~= answered.responses);
                assert(fr == answered);
                assert(settled_as(mid, answered, r, *self));
                if r is Ok {
                    let ev = r->Ok_0@;
                    assert forall|k: int| 0 <= k < 4 implies wins_delta(mid, ev.drop_last(), WinType::Ron { from: reaction.discarder }, k)
                        == wins_delta(start, ev.drop_last(), WinType::Ron { from: reaction.discarder }, k) by {
                        lemma_wins_delta_same_table(mid, start, ev.drop_last(), WinType::Ron { from: reaction.discarder }, k);
                    }
                }
                assert(ron_winners_of(mid, answered) == ron_winners_of(start, answered));
                assert(rons_settled(start, fr, r, *self));
                assert(passes_settled(start, fr, r, *self));
                assert(calls_settled(start, fr, r, *self));
            }
            assert forall|v: int| #[trigger] ron_by_only(reaction, v) && reaction_accepted(start, seat as int, action)
                && (action == Action::Pass || (action == Action::Ron && seat == v)) implies ron_answer_outcome(
                start,
                seat as int,
                action,
                v,
                r is Ok,
                *self,
            ) by {
                assert(ron_by_only(answered, v));
                assert(complete(answered));
                if action == Action::Ron || answered_ron(reaction, v) {
                    assert(answered_ron(answered, v));
                }
            }
            if r is Ok {
                assert(melds_total(mid) == melds_total(*old(self)));
            }
            if action == Action::Pass && all_passed(reaction) && r is Ok {
                assert(all_passed(answered)) by {
                    assert forall|k: int| 0 <= k < 4 implies (#[trigger] answered.responses@[k]) is None
                        || answered.responses@[k] == Some(Action::Pass) by {
                        if k != seat {
                            assert(answered.responses@[k] == reaction.responses@[k]);
                        }
                    }
                }
                lemma_replays_unchanged(start, Seq::empty(), mid);
                lemma_replays_concat(start, Seq::empty(), mid, r->Ok_0@, *self);
                assert(Seq::<Event>::empty() + r->Ok_0@ =~= r->Ok_0@);
            }
            if action == Action::Pass && all_passed(reaction) {
                assert(all_passed(answered)) by {
                    assert forall|k: int| 0 <= k < 4 implies (#[trigger] answered.responses@[k]) is None
                        || answered.responses@[k] == Some(Action::Pass) by {
                        if k != seat {
                            assert(answered.responses@[k] == reaction.responses@[k]);
                        }
                    }
                }
                lemma_table_unchanged(start, mid);
            }
        }
        r
    }

    /// Applies the action of `seat`: the current actor draws, discards, declares riichi,
    /// tsumo, a closed or added kan, or the nine-terminals abort; during a reaction window
    /// the other seats answer. An action refused for its seat, its phase or its legality leaves
    /// the hand as it was.
    #[verifier::rlimit(40)]
    pub fn apply(&mut self, seat: usize, action: Action) -> (r: Result<Vec<Event>, Error>)
        requires
            old(self).wf(),
            old(self).phase == HandPhase::Reaction ==> seat < 4,
        ensures
            final(self).wf(),
            old(self).phase == HandPhase::Ended ==> r == Err::<Vec<Event>, Error>(Error::HandEnded),
            (old(self).phase == HandPhase::Draw || old(self).phase == HandPhase::Discard) && seat != old(self).current_actor
                ==> r == Err::<Vec<Event>, Error>(Error::WrongActor { expected: old(self).current_actor, actual: seat }),
            turn_action(*old(self), seat as int) ==> match action {
                Action::Draw => r is Ok <==> old(self).phase == HandPhase::Draw && old(self).wall.live_seq().len() > 0
                    && old(self).hands@[seat as int].concealed@.len() < 136,
                Action::Discard(t) => r is Ok <==> old(self).phase == HandPhase::Discard
                    && old(self).hands@[seat as int].concealed@.contains(t),
                Action::Riichi { discard } => r is Ok <==> riichi_allowed(*old(self), seat as int)
                    && old(self).hands@[seat as int].concealed@.contains(discard)
                    && tenpai_with(remove_first(old(self).hands@[seat as int].concealed@, discard), 0),
                Action::Tsumo => (old(self).last_draw is None ==> r == Err::<Vec<Event>, Error>(Error::CannotWin))
                    && (r is Ok <==> old(self).last_draw is Some && winning_hand(old(self).hands@[seat as int], old(self).last_draw)),
                Action::Kan(KanIntent::Closed { tile }) => r is Ok <==> same_face(old(self).hands@[seat as int].concealed@, tile).len()
                    >= 4 && old(self).hands@[seat as int].melds@.len() < 4 && kan_room(old(self).wall),
                Action::Kan(KanIntent::Added { meld_index }) => r is Ok <==> old(self).phase == HandPhase::Discard
                    && kakan_allowed(old(self).hands@[seat as int], meld_index as int),
                Action::AbortiveNineTerminals => r is Ok <==> seat == old(self).dealer && old(self).is_dealer_first_turn
                    && abortive_of(*old(self), old(self).config, AbortiveTrigger::DealerFirstTurn) == Some(
                    AbortiveDrawKind::NineTerminals,
                ),
                _ => r == Err::<Vec<Event>, Error>(Error::IllegalAction { action, phase: old(self).phase }),
            },
            turn_action(*old(self), seat as int) ==> (r is Ok <==> turn_accepts(*old(self), seat as int, action)),
            old(self).phase == HandPhase::Reaction && !reaction_accepted(*old(self), seat as int, action) ==> r is Err,
            old(self).phase == HandPhase::Reaction && reaction_accepted(*old(self), seat as int, action) && !complete_after(
                old(self).reaction->0,
                seat as int,
            ) ==> (r matches Ok(ev) && ev@.len() == 0) && final(self).phase == HandPhase::Reaction,
            turn_action(*old(self), seat as int) && action == Action::Tsumo && r is Ok ==> final(self).phase == HandPhase::Ended
                && (final(self).end_reason matches Some(HandEndReason::Win { winners }) && winners@ == seq![seat]),
            turn_action(*old(self), seat as int) && (action matches Action::Discard(_)) && r is Ok ==> final(self).phase
                == HandPhase::Ended || final(self).phase == HandPhase::Reaction,
            turn_action(*old(self), seat as int) && r is Ok ==> (action matches Action::Kan(KanIntent::Closed { tile }) ==> {
                let c = old(self).hands@[seat as int].concealed@;
                let k = same_face(c, tile).take(4);
                let rin = old(self).wall.dead_seq()[rinshan_pos(old(self).wall.rinshans())];
                let h = final(self).hands@[seat as int];
                &&& h.melds@.drop_last() == old(self).hands@[seat as int].melds@
                &&& h.melds@.last().kind == MeldKind::ClosedKan
                &&& h.melds@.last().tiles@ == k
                &&& h.concealed@.to_multiset().add(k.to_multiset()) == c.to_multiset().insert(rin)
                &&& final(self).last_draw == Some(rin)
                &&& final(self).wall.kans() == old(self).wall.kans() + 1
            }),
            turn_action(*old(self), seat as int) && r is Ok ==> (action matches Action::Discard(t) ==> {
                &&& final(self).discards@[seat as int]@ == old(self).discards@[seat as int]@.push(t)
                &&& final(self).hands@[seat as int].concealed@ == remove_first(old(self).hands@[seat as int].concealed@, t)
                &&& forall|i: int| 0 <= i < 4 && i != seat ==> #[trigger] final(self).hands@[i] == old(self).hands@[i]
                &&& final(self).last_discard == Some((seat, t))
                &&& (final(self).phase == HandPhase::Ended || final(self).reaction == Some(ReactionState::new_spec(seat, t)))
                &&& final(self).temporary_furiten == old(self).temporary_furiten
                &&& final(self).riichi_furiten == old(self).riichi_furiten
                &&& forall|i: int| 0 <= i < 4 && i != seat ==> #[trigger] final(self).discards@[i] == old(self).discards@[i]
                &&& !(t.kind is Wind) ==> final(self).phase == HandPhase::Reaction
                &&& (final(self).phase == HandPhase::Ended <==> discard_abort(*final(self), seat, t, false) is Some)
                &&& (discard_abort(*final(self), seat, t, false) matches Some(k) ==> final(self).end_reason == Some(
                    HandEndReason::AbortiveDraw(k),
                ))
            }),
            turn_action(*old(self), seat as int) && action == Action::Draw && r is Ok ==> final(self).phase == HandPhase::Discard,
            turn_action(*old(self), seat as int) && action == Action::Draw && r is Ok ==> final(self).wall.live_seq().len()
                == old(self).wall.live_seq().len() - 1 && final(self).wall.rinshans() == old(self).wall.rinshans()
                && melds_total(*final(self)) == melds_total(*old(self)),
            turn_action(*old(self), seat as int) && (action matches Action::Discard(_)) && r is Ok ==> final(self).wall
                == old(self).wall && melds_total(*final(self)) == melds_total(*old(self)),
            old(self).phase == HandPhase::Reaction && reaction_accepted(*old(self), seat as int, action) && !complete_after(
                old(self).reaction->0,
                seat as int,
            ) ==> final(self).wall == old(self).wall && melds_total(*final(self)) == melds_total(*old(self))
                && (final(self).reaction matches Some(fr) && recorded(old(self).reaction->0, fr, seat as int, action)),
            old(self).phase == HandPhase::Reaction && reaction_accepted(*old(self), seat as int, action) && complete_after(
                old(self).reaction->0,
                seat as int,
            ) && r is Ok ==> settles(*old(self), *final(self)),
            window_open(*old(self)) && r is Ok ==> window_open(*final(self)),
            turn_action(*old(self), seat as int) && action == Action::Draw && r is Ok ==> final(self).current_actor
                == old(self).current_actor && final(self).hands@[seat as int].concealed@.len()
                == old(self).hands@[seat as int].concealed@.len() + 1 && (forall|i: int|
                0 <= i < 4 && i != seat ==> #[trigger] final(self).hands@[i] == old(self).hands@[i]),
            forall|w: int|
                old(self).phase == HandPhase::Reaction && #[trigger] ron_by_only(old(self).reaction->0, w)
                    && reaction_accepted(*old(self), seat as int, action) && (action == Action::Pass || (action == Action::Ron
                    && seat == w)) ==> ron_answer_outcome(*old(self), seat as int, action, w, r is Ok, *final(self)),
            old(self).phase == HandPhase::Reaction && action == Action::Pass && reaction_accepted(*old(self), seat as int, action)
                && all_passed(old(self).reaction->0) ==> r is Ok && table_of(*final(self)) == table_of(*old(self)) && (
            final(self).phase == HandPhase::Reaction || final(self).phase == HandPhase::Ended || (final(self).phase
                == HandPhase::Draw && final(self).wall.live_seq().len() > 0)),
            turn_action(*old(self), seat as int) && (action == Action::Draw || (action matches Action::Discard(_)) || (action is Riichi)
                || action == Action::Tsumo || action == Action::AbortiveNineTerminals) && r is Ok ==> (r matches Ok(ev) && replays_to(
                *old(self),
                ev@,
                *final(self),
            )),
            old(self).phase == HandPhase::Reaction && action == Action::Pass && (old(self).reaction matches Some(rr)
                && all_passed(rr)) && r is Ok ==> (r matches Ok(ev) && replays_to(*old(self), ev@, *final(self))),
            turn_action(*old(self), seat as int) && (action matches Action::Discard(_)) && old(self).phase == HandPhase::Draw
                ==> r == Err::<Vec<Event>, Error>(Error::WrongPhase { expected: HandPhase::Discard, actual: HandPhase::Draw }),
            turn_action(*old(self), seat as int) && action == Action::AbortiveNineTerminals && r is Ok ==> final(self).phase
                == HandPhase::Ended && final(self).end_reason == Some(HandEndReason::AbortiveDraw(AbortiveDrawKind::NineTerminals))
                && (r matches Ok(ev) && ev@ == seq![Event::AbortiveDraw { kind: AbortiveDrawKind::NineTerminals }]),
            turn_action(*old(self), seat as int) && r is Ok ==> (action matches Action::Riichi { discard } ==> riichi_declared(
                *old(self),
                seat,
                discard,
                *final(self),
            )),
            turn_action(*old(self), seat as int) && r is Ok ==> (action matches Action::Kan(KanIntent::Added { meld_index })
                ==> kakan_declared(*old(self), seat, meld_index, r->Ok_0@, *final(self))),
            old(self).phase == HandPhase::Reaction && old(self).can_respond_spec(seat) && action == Action::Ron && furiten(
                *old(self),
                seat as int,
                old(self).reaction->0.tile,
            ) ==> r == Err::<Vec<Event>, Error>(Error::Furiten),
            old(self).phase == HandPhase::Reaction && old(self).can_respond_spec(seat) && action == Action::Ron && !ron_allowed(
                *old(self),
                seat as int,
            ) && !furiten(*old(self), seat as int, old(self).reaction->0.tile) ==> r == Err::<Vec<Event>, Error>(Error::CannotWin),
            old(self).phase == HandPhase::Reaction && old(self).can_respond_spec(seat) && (action matches Action::Chi { .. }) && seat != next_seat_of(
                old(self).reaction->0.discarder as int,
            ) ==> (r matches Err(Error::InvalidCall { kind: CallKind::Chi, .. })),
            old(self).phase == HandPhase::Reaction && old(self).can_respond_spec(seat) && action is Pon && !call_valid(*old(self), seat as int, action) ==> (r matches Err(
                Error::InvalidCall { kind: CallKind::Pon, .. },
            )),
            old(self).phase == HandPhase::Reaction && old(self).can_respond_spec(seat) && action == Action::Kan(KanIntent::Open) && !call_valid(*old(self), seat as int, action)
                ==> (r matches Err(Error::InvalidCall { kind: CallKind::OpenKan, .. })),
            old(self).phase == HandPhase::Reaction && old(self).can_respond_spec(seat) && action != Action::Pass && action != Action::Ron && call_kind_of(action) is None
                ==> r == Err::<Vec<Event>, Error>(Error::IllegalAction { action, phase: HandPhase::Reaction }),
            r is Ok ==> conserved_by(*old(self), *final(self)),
            forall|fr: ReactionState|
                old(self).phase == HandPhase::Reaction && #[trigger] recorded(old(self).reaction->0, fr, seat as int, action)
                    && reaction_accepted(*old(self), seat as int, action) && complete_after(old(self).reaction->0, seat as int)
                    ==> settled_as(*old(self), fr, r, *final(self)),
            r is Err && (old(self).phase != HandPhase::Reaction || !reaction_accepted(*old(self), seat as int, action))
                ==> *final(self) == *old(self),
    {
        let ghost before = *self;
        let r = match self.phase {
            HandPhase::Ended => Err(Error::HandEnded),
            HandPhase::Reaction => {
                let r = self.apply_reaction(seat, action);
                proof {
                    if r is Ok && !complete_after(before.reaction->0, seat as int) {
                        let fr = self.reaction->0;
                        let s0 = choose|s0: int| !(0 <= s0 < 4 ==> s0 == before.reaction->0.discarder || s0 == seat
                            || (#[trigger] before.reaction->0.responses@[s0]) is Some);
                        assert(fr.responses@[s0] is None);
                    }
                }
                r
            },
            _ => {
                if seat != self.current_actor {
                    return Err(Error::WrongActor { expected: self.current_actor, actual: seat });
                }
                let phase = self.phase;
                match action {
                    Action::Draw => self.apply_draw(seat),
                    Action::Discard(tile) => self.apply_discard_inner(seat, tile, false),
                    Action::Riichi { discard } => self.apply_riichi(seat, discard),
                    Action::Tsumo => {
                        let tile = match self.last_draw {
                            Some(t) => t,
                            None => {
                                return Err(Error::CannotWin);
                            },
                        };
                        self.resolve_win(seat, WinType::Tsumo, tile)
                    },
                    Action::Kan(KanIntent::Closed { tile }) => self.apply_closed_kan(seat, tile),
                    Action::Kan(KanIntent::Added { meld_index }) => self.apply_kakan(seat, meld_index),
                    Action::AbortiveNineTerminals => self.apply_abortive_nine_terminals(seat),
                    _ => Err(Error::IllegalAction { action, phase }),
                }
            },
        };
        proof {
            if r is Ok && self.phase == HandPhase::Reaction && before.phase != HandPhase::Reaction {
                lemma_fresh_window_open(self.reaction->0);
            }
            if r is Ok && turn_action(before, seat as int) && action == Action::AbortiveNineTerminals {
                assert(r->Ok_0@ == seq![Event::AbortiveDraw { kind: AbortiveDrawKind::NineTerminals }]);
                lemma_replays_unchanged(before, r->Ok_0@, *self);
            }
        }
        r
    }

    /// Plays the hand to its end with every seat only drawing, discarding the tile that
    /// `pick_discard` picks, and passing every window. The first event records the deal.
    #[verifier::rlimit(40)]
    pub fn play_out_discards<F: Fn(&HandState, usize) -> Tile>(&mut self, pick_discard: F) -> (r: Result<Vec<Event>, Error>)
        requires
            old(self).wf(),
            window_open(*old(self)),
            forall|s: &HandState, seat: usize|
                s.wf() && s.phase == HandPhase::Discard && seat == s.current_actor ==> #[trigger] pick_discard.requires((s, seat)),
        ensures
            final(self).wf(),
            r is Ok ==> final(self).phase == HandPhase::Ended,
            r matches Ok(ev) ==> ev@.len() >= 1 && ev@[0] == (Event::Dealt { dealer: old(self).dealer }),
            r is Ok ==> final(self).accounted() == old(self).accounted() || (final(self).end_reason matches Some(
                HandEndReason::Win { .. },
            ) && final(self).accounted() == old(self).accounted() - 1),
            replay_ready(*old(self)) && r is Ok ==> (r matches Ok(ev) && replays_to(*old(self), ev@, *final(self))),
            replay_ready(*old(self)) && play_sizes_ok(*old(self)) && (forall|st: &HandState, seat: usize, t: Tile|
                #[trigger] pick_discard.ensures((st, seat), t) ==> st.hands@[seat as int].concealed@.contains(t)) ==> r is Ok,
    {
        let ghost start = *self;
        let ghost go = replay_ready(start) && play_sizes_ok(start) && (forall|st: &HandState, seat: usize, t: Tile|
            #[trigger] pick_discard.ensures((st, seat), t) ==> st.hands@[seat as int].concealed@.contains(t));
        let mut events: Vec<Event> = Vec::new();
        events.push(Event::Dealt { dealer: self.dealer });
        proof {
            lemma_replays_unchanged(start, events@, *self);
        }
        while !self.is_ended()
            invariant
                self.wf(),
                window_open(*self),
                forall|s: &HandState, seat: usize|
                    s.wf() && s.phase == HandPhase::Discard && seat == s.current_actor ==> #[trigger] pick_discard.requires((s, seat)),
                events@.len() >= 1,
                events@[0] == (Event::Dealt { dealer: start.dealer }),
                self.accounted() == start.accounted() || (self.end_reason matches Some(HandEndReason::Win { .. })
                    && self.accounted() == start.accounted() - 1 && self.phase == HandPhase::Ended),
                replay_ready(start) ==> replay_ready(*self) && replays_to(start, events@, *self),
                go == (replay_ready(start) && play_sizes_ok(start) && (forall|st: &HandState, seat: usize, t: Tile|
                    #[trigger] pick_discard.ensures((st, seat), t) ==> st.hands@[seat as int].concealed@.contains(t))),
                go ==> play_sizes_ok(*self),
                start == *old(self),
            decreases progress_measure(*self),
        {
            let ghost iter_start = *self;
            proof {
                lemma_measure_bounds(*self);
            }
            match self.phase {
                HandPhase::Draw => {
                    let seat = self.current_actor;
                    proof {
                        if go {
                            assert(self.hands@[seat as int].concealed@.len() <= 14);
                            assert(turn_action(*self, seat as int));
                            assert(turn_accepts(*self, seat as int, Action::Draw));
                        }
                    }
                    let ghost pre = *self;
                    let rr = self.apply(seat, Action::Draw);
                    proof {
                        if go {
                            assert(turn_action(pre, seat as int));
                            assert(turn_accepts(pre, seat as int, Action::Draw));
                            assert(rr is Ok);
                        }
                    }
                    let mut ev = match rr {
                        Ok(ev) => ev,
                        Err(e) => {
                            return Err(e);
                        },
                    };
                    proof {
                        if go {
                            assert forall|i: int| 0 <= i < 4 implies (#[trigger] self.hands@[i]).concealed@.len() <= if self.phase
                                == HandPhase::Discard && i == self.current_actor {
                                15int
                            } else {
                                14int
                            } by {
                                if i != seat {
                                    assert(self.hands@[i] == iter_start.hands@[i]);
                                }
                            }
                        }
                    }
                    let ghost prior = events@;
                    proof {
                        if replay_ready(start) {
                            lemma_replays_concat(start, prior, iter_start, ev@, *self);
                        }
                    }
                    events.append(&mut ev);
                },
                HandPhase::Discard => {
                    let seat = self.current_actor;
                    let tile = pick_discard(&*self, seat);
                    proof {
                        if go {
                            assert(pick_discard.ensures((&*self, seat), tile));
                            assert(self.hands@[seat as int].concealed@.contains(tile));
                        }
                    }
                    let mut ev = match self.apply(seat, Action::Discard(tile)) {
                        Ok(ev) => ev,
                        Err(e) => {
                            return Err(e);
                        },
                    };
                    proof {
                        if go {
                            let c = iter_start.hands@[seat as int].concealed@;
                            lemma_remove_first_multiset(c, tile);
                            c.to_multiset_ensures();
                            remove_first(c, tile).to_multiset_ensures();
                            assert forall|i: int| 0 <= i < 4 implies (#[trigger] self.hands@[i]).concealed@.len() <= if self.phase
                                == HandPhase::Discard && i == self.current_actor {
                                15int
                            } else {
                                14int
                            } by {
                                if i != seat {
                                    assert(self.hands@[i] == iter_start.hands@[i]);
                                }
                            }
                        }
                    }
                    let ghost prior = events@;
                    proof {
                        if replay_ready(start) {
                            lemma_replays_concat(start, prior, iter_start, ev@, *self);
                        }
                    }
                    events.append(&mut ev);
                },
                HandPhase::Reaction => {
                    let mut seat: usize = 0;
                    while seat < 4
                        invariant
                            seat <= 4,
                            self.wf(),
                            window_open(*self),
                            iter_start.phase == HandPhase::Reaction,
                            self.phase == HandPhase::Reaction ==> self.reaction is Some && forall|k: usize|
                                k < seat ==> !#[trigger] self.can_respond_spec(k),
                            self.phase == HandPhase::Reaction ==> self.wall == iter_start.wall && melds_total(*self)
                                == melds_total(iter_start),
                            self.phase != HandPhase::Reaction ==> settles(iter_start, *self),
                            events@.len() >= 1,
                            events@[0] == (Event::Dealt { dealer: start.dealer }),
                                        self.accounted() == start.accounted() || (self.end_reason matches Some(HandEndReason::Win { .. })
                                && self.accounted() == start.accounted() - 1 && self.phase == HandPhase::Ended),
                            replay_ready(start) ==> replay_ready(*self) && replays_to(start, events@, *self),
                            go == (replay_ready(start) && play_sizes_ok(start) && (forall|st: &HandState, seat: usize, t: Tile|
                                #[trigger] pick_discard.ensures((st, seat), t) ==> st.hands@[seat as int].concealed@.contains(t))),
                            go ==> play_sizes_ok(*self),
                            start == *old(self),
                        decreases 4 - seat,
                    {
                        if self.can_respond(seat) {
                            let ghost before = *self;
                            proof {
                                if go {
                                    assert(replay_ready(*self));
                                    assert(all_passed(self.reaction->0));
                                    assert(reaction_accepted(*self, seat as int, Action::Pass));
                                }
                            }
                            let mut ev = match self.apply(seat, Action::Pass) {
                                Ok(ev) => ev,
                                Err(e) => {
                                    return Err(e);
                                },
                            };
                            proof {
                                if go {
                                    lemma_table_lens(*self, before);
                                    assert forall|i: int| 0 <= i < 4 implies (#[trigger] self.hands@[i]).concealed@.len() <= if self.phase
                                        == HandPhase::Discard && i == self.current_actor {
                                        15int
                                    } else {
                                        14int
                                    } by {
                                        assert(before.hands@[i].concealed@.len() <= 14);
                                    }
                                }
                            }
                            proof {
                                if self.phase == HandPhase::Reaction {
                                    assert forall|k: usize| k < seat + 1 implies !#[trigger] self.can_respond_spec(k) by {
                                        if k < seat {
                                            assert(!before.can_respond_spec(k));
                                        }
                                    }
                                }
                            }
                            let ghost prior = events@;
                            proof {
                                if replay_ready(start) {
                                    lemma_replays_concat(start, prior, before, ev@, *self);
                                    if self.phase == HandPhase::Reaction {
                                        let a = before.reaction->0;
                                        let b = self.reaction->0;
                                        assert forall|k: int| 0 <= k < 4 implies (#[trigger] b.responses@[k]) is None
                                            || b.responses@[k] == Some(Action::Pass) by {
                                            if k != seat {
                                                assert(b.responses@[k] == a.responses@[k]);
                                            }
                                        }
                                    }
                                }
                            }
                            events.append(&mut ev);
                        }
                        seat = seat + 1;
                    }
                    proof {
                        if self.phase == HandPhase::Reaction {
                            let rr = self.reaction->0;
                            assert forall|k: int| 0 <= k < 4 implies k == rr.discarder || (#[trigger] rr.responses@[k]) is Some by {
                                assert(!self.can_respond_spec(k as usize));
                            }
                            assert(false);
                        }
                    }
                },
                HandPhase::Ended => {},
            }
        }
        Ok(events)
    }
}

} // verus!
