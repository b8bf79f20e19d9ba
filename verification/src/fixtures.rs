//! Reference hands shared by tests and examples.

use vstd::prelude::*;

use crate::action::Action;
use crate::error::Error;
use crate::event::Event;
use crate::state::hand_state::{HandPhase, HandState};
use crate::state::reaction::ReactionState;
use crate::state::turn::{complete_after, reaction_accepted, ron_answer_outcome, window_open};
use crate::state::claims::ron_by_only;
use crate::state::wins::{furiten, ron_allowed};
use crate::rules::standard::win::wins_with;
use crate::state::reaction::answered_ron;
use crate::state::hand_state::HandEndReason;
use crate::tile::{Tile, numbered_tile};
use crate::tile::Suit;

verus! {

/// The concealed tanyao winning hand: 234m 345p 678s 999s 22p.
pub open spec fn tanyao_hand() -> Seq<Tile> {
    seq![
        numbered_tile(Suit::Man, 2),
        numbered_tile(Suit::Man, 3),
        numbered_tile(Suit::Man, 4),
        numbered_tile(Suit::Pin, 3),
        numbered_tile(Suit::Pin, 4),
        numbered_tile(Suit::Pin, 5),
        numbered_tile(Suit::Sou, 6),
        numbered_tile(Suit::Sou, 7),
        numbered_tile(Suit::Sou, 8),
        numbered_tile(Suit::Sou, 9),
        numbered_tile(Suit::Sou, 9),
        numbered_tile(Suit::Sou, 9),
        numbered_tile(Suit::Pin, 2),
        numbered_tile(Suit::Pin, 2),
    ]
}

/// Concealed tanyao winning hand (14 tiles).
pub fn winning_tanyao_tiles() -> (v: Vec<Tile>)
    ensures
        v@ == tanyao_hand(),
{
    let mut v: Vec<Tile> = Vec::new();
    v.push(Tile::man(2));
    v.push(Tile::man(3));
    v.push(Tile::man(4));
    v.push(Tile::pin(3));
    v.push(Tile::pin(4));
    v.push(Tile::pin(5));
    v.push(Tile::sou(6));
    v.push(Tile::sou(7));
    v.push(Tile::sou(8));
    v.push(Tile::sou(9));
    v.push(Tile::sou(9));
    v.push(Tile::sou(9));
    v.push(Tile::pin(2));
    v.push(Tile::pin(2));
    assert(v@ =~= tanyao_hand());
    v
}

/// Tenpai on 2p (13 tiles): the tanyao hand without its last 2p.
pub fn tenpai_waiting_on_p2() -> (v: Vec<Tile>)
    ensures
        v@ == tanyao_hand().drop_last(),
{
    let mut hand = winning_tanyao_tiles();
    hand.pop();
    hand
}

/// Tenpai after drawing the winning 2p (the drawn tile is in the concealed hand).
pub fn tenpai_after_draw_p2() -> (v: Vec<Tile>)
    ensures
        v@ == tanyao_hand().drop_last().push(numbered_tile(Suit::Pin, 2)),
{
    let mut hand = tenpai_waiting_on_p2();
    hand.push(Tile::pin(2));
    hand
}

/// Whether `seat` still owes an answer to the window `r`.
pub open spec fn owes(r: ReactionState, seat: int) -> nat {
    if seat != r.discarder && r.responses@[seat] is None {
        1
    } else {
        0
    }
}

/// While a window is open: one more than the answers it still waits for; else nothing.
pub open spec fn owed_answers(s: HandState) -> nat {
    if s.phase == HandPhase::Reaction && s.reaction is Some {
        let r = s.reaction->0;
        1 + owes(r, 0) + owes(r, 1) + owes(r, 2) + owes(r, 3)
    } else {
        0
    }
}

/// Gives `seat` the concealed tanyao win with a drawn 2p, ready to tsumo.
pub fn force_tsumo_win(hand: &mut HandState, seat: usize)
    requires
        old(hand).wf(),
        seat < 4,
    ensures
        final(hand).wf(),
        final(hand).hands@[seat as int].concealed@ == tanyao_hand(),
        final(hand).hands@[seat as int].melds@ == old(hand).hands@[seat as int].melds@,
        forall|i: int| 0 <= i < 4 && i != seat ==> (#[trigger] final(hand).hands@[i]) == old(hand).hands@[i],
        final(hand).last_draw == Some(numbered_tile(Suit::Pin, 2)),
        *final(hand) == (HandState { hands: final(hand).hands, last_draw: final(hand).last_draw, ..*old(hand) }),
{
    hand.set_concealed(seat, winning_tanyao_tiles());
    hand.last_draw = Some(Tile::pin(2));
}

/// Makes `winner` tenpai on 2p and has the dealer, on its discard turn, throw a 2p.
pub fn force_ron_setup(hand: &mut HandState, winner: usize)
    requires
        old(hand).wf(),
        winner < 4,
        old(hand).phase == HandPhase::Discard,
        old(hand).current_actor == old(hand).dealer,
        old(hand).hands@[old(hand).dealer as int].concealed@.len() > 0 || winner == old(hand).dealer,
    ensures
        final(hand).wf(),
        final(hand).phase == HandPhase::Reaction || final(hand).phase == HandPhase::Ended,
        final(hand).phase == HandPhase::Reaction ==> final(hand).reaction == Some(
            ReactionState::new_spec(old(hand).dealer, numbered_tile(Suit::Pin, 2)),
        ),
        winner != old(hand).dealer ==> final(hand).hands@[winner as int].concealed@ == tanyao_hand().drop_last(),
        final(hand).discards@[old(hand).dealer as int]@ == old(hand).discards@[old(hand).dealer as int]@.push(
            numbered_tile(Suit::Pin, 2),
        ),
        window_open(*final(hand)),
        winner != old(hand).dealer ==> {
            &&& final(hand).phase == HandPhase::Reaction
            &&& final(hand).reaction == Some(ReactionState::new_spec(old(hand).dealer, numbered_tile(Suit::Pin, 2)))
            &&& final(hand).hands@[winner as int].melds@ == old(hand).hands@[winner as int].melds@
            &&& final(hand).discards@[winner as int] == old(hand).discards@[winner as int]
            &&& final(hand).temporary_furiten@[winner as int] == old(hand).temporary_furiten@[winner as int]
            &&& final(hand).riichi_furiten@[winner as int] == old(hand).riichi_furiten@[winner as int]
        },
{
    let dealer = hand.dealer;
    hand.set_concealed(winner, tenpai_waiting_on_p2());
    let mut dealer_hand: Vec<Tile> = crate::hand::copy_tiles(hand.hands[dealer].concealed.tiles());
    dealer_hand.set(0, Tile::pin(2));
    hand.set_concealed(dealer, dealer_hand);
    proof {
        assert(hand.hands@[dealer as int].concealed@[0] == numbered_tile(Suit::Pin, 2));
        assert(hand.hands@[dealer as int].concealed@.contains(numbered_tile(Suit::Pin, 2)));
    }
    let r = hand.apply(dealer, Action::Discard(Tile::pin(2)));
    proof {
        assert(r is Ok);
    }
}

/// The window of `s` is on a discard, `winner` still owes its answer, and every answer so far
/// is a pass.
pub open spec fn ron_pending(s: HandState, winner: int) -> bool {
    &&& s.phase == HandPhase::Reaction
    &&& s.reaction matches Some(r) && ron_by_only(r, winner) && r.responses@[winner] is None
}

/// A ron by `winner` on the window of `s` is taken: it is allowed, and the discarded tile is
/// still in its river.
pub open spec fn ron_takes(s: HandState, winner: int) -> bool {
    &&& ron_allowed(s, winner)
    &&& s.discards@[s.reaction->0.discarder as int]@.len() > 0
}

/// Answers the open window seat by seat, first owing seat first: `winner` calls ron, every
/// other seat passes. Stops at the first refused answer and returns its error.
#[verifier::rlimit(40)]
pub fn resolve_pending_reactions(hand: &mut HandState, winner: usize) -> (r: Result<Vec<Event>, Error>)
    requires
        old(hand).wf(),
        window_open(*old(hand)),
    ensures
        final(hand).wf(),
        r is Ok ==> final(hand).phase != HandPhase::Reaction,
        old(hand).phase != HandPhase::Reaction ==> (r matches Ok(ev) && ev@.len() == 0) && *final(hand) == *old(hand),
        ron_pending(*old(hand), winner as int) ==> (r is Ok <==> ron_takes(*old(hand), winner as int)),
        ron_pending(*old(hand), winner as int) && r is Ok ==> final(hand).phase == HandPhase::Ended
            && (final(hand).end_reason matches Some(HandEndReason::Win { winners }) && winners@ == seq![winner]),
{
    let ghost start = *hand;
    let ghost c = ron_pending(start, winner as int);
    let ghost w = winner as int;
    let ghost rr0 = start.reaction->0;
    let mut events: Vec<Event> = Vec::new();
    while hand.phase == HandPhase::Reaction
        invariant
            hand.wf(),
            window_open(*hand),
            start == *old(hand),
            c == ron_pending(start, w),
            w == winner as int,
            rr0 == start.reaction->0,
            old(hand).phase != HandPhase::Reaction ==> events@.len() == 0 && *hand == *old(hand),
            c ==> {
                &&& hand.phase == HandPhase::Reaction ==> {
                    &&& hand.hands == start.hands
                    &&& hand.discards == start.discards
                    &&& hand.temporary_furiten@[w] == start.temporary_furiten@[w]
                    &&& hand.riichi_furiten@[w] == start.riichi_furiten@[w]
                    &&& hand.reaction matches Some(r) && ron_by_only(r, w) && r.tile == rr0.tile && r.discarder
                        == rr0.discarder && r.responses@[w] != Some(Action::Pass) && (r.responses@[w] is Some
                        ==> ron_allowed(start, w))
                }
                &&& hand.phase != HandPhase::Reaction ==> ron_takes(start, w) && hand.phase == HandPhase::Ended && (
                hand.end_reason matches Some(HandEndReason::Win { winners }) && winners@ == seq![winner])
            },
        decreases owed_answers(*hand),
    {
        let ghost before = *hand;
        let seat = match hand.pending_reaction_seat() {
            Some(s) => s,
            None => {
                proof {
                    let rr = hand.reaction->0;
                    let k = choose|k: int| !(0 <= k < 4 ==> k == rr.discarder || (#[trigger] rr.responses@[k]) is Some);
                    assert(hand.can_respond_spec(k as usize));
                }
                return Err(Error::HandEnded);
            },
        };
        let action = if seat == winner {
            Action::Ron
        } else {
            Action::Pass
        };
        proof {
            if c {
                let r = before.reaction->0;
                assert(ron_allowed(before, w) == ron_allowed(start, w));
                if seat != winner {
                    assert(reaction_accepted(before, seat as int, action));
                    if complete_after(r, seat as int) {
                        assert(r.responses@[w] is Some);
                        assert(answered_ron(r, w));
                    }
                }
            }
        }
        let mut ev = match hand.apply(seat, action) {
            Ok(ev) => ev,
            Err(e) => {
                return Err(e);
            },
        };
        events.append(&mut ev);
        proof {
            if hand.phase == HandPhase::Reaction {
                let a = before.reaction->0;
                let b = hand.reaction->0;
                assert(b.responses@ == a.responses@.update(seat as int, Some(action)));
                assert(owes(b, seat as int) == 0);
                assert(owes(a, seat as int) == 1);
            }
            if c {
                let r = before.reaction->0;
                assert(ron_by_only(r, w));
                assert(reaction_accepted(before, seat as int, action));
                assert(ron_answer_outcome(before, seat as int, action, w, true, *hand));
                if !complete_after(r, seat as int) {
                    let b = hand.reaction->0;
                    assert(hand.hands == start.hands);
                    assert(hand.temporary_furiten@[w] == start.temporary_furiten@[w]) by {
                        if seat as int != w {
                            assert(hand.temporary_furiten@[w] == before.temporary_furiten@[w]);
                        }
                    }
                    assert(hand.riichi_furiten@[w] == start.riichi_furiten@[w]) by {
                        if seat as int != w {
                            assert(hand.riichi_furiten@[w] == before.riichi_furiten@[w]);
                        }
                    }
                    if seat != winner {
                        assert(b.responses@[w] == r.responses@[w]);
                    }
                } else {
                    assert(answered_ron(r, w) || action == Action::Ron);
                    assert(hand.phase == HandPhase::Ended);
                }
            }
        }
    }
    Ok(events)
}

/// Sets up a ron on the dealer's 2p for `winner` and answers the window.
pub fn force_ron_win(hand: &mut HandState, winner: usize) -> (r: Result<Vec<Event>, Error>)
    requires
        old(hand).wf(),
        winner < 4,
        old(hand).phase == HandPhase::Discard,
        old(hand).current_actor == old(hand).dealer,
        old(hand).hands@[old(hand).dealer as int].concealed@.len() > 0 || winner == old(hand).dealer,
    ensures
        final(hand).wf(),
        r is Ok ==> final(hand).phase != HandPhase::Reaction,
        winner != old(hand).dealer ==> (r is Ok <==> !furiten(*old(hand), winner as int, numbered_tile(Suit::Pin, 2))
            && wins_with(tanyao_hand().drop_last(), old(hand).hands@[winner as int].melds@.len(), Some(numbered_tile(Suit::Pin, 2)))),
        winner != old(hand).dealer && r is Ok ==> final(hand).phase == HandPhase::Ended && (final(hand).end_reason matches Some(
            HandEndReason::Win { winners },
        ) && winners@ == seq![winner]),
{
    let ghost start = *hand;
    force_ron_setup(hand, winner);
    proof {
        if winner != start.dealer {
            let p2 = numbered_tile(Suit::Pin, 2);
            let r = hand.reaction->0;
            assert(ron_by_only(r, winner as int));
            assert(ron_pending(*hand, winner as int));
            assert(furiten(*hand, winner as int, p2) == furiten(start, winner as int, p2));
            assert(hand.discards@[r.discarder as int]@.len() > 0);
        }
    }
    resolve_pending_reactions(hand, winner)
}

} // verus!
