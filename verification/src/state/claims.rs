//! Kans, the reaction window and the calls that resolve it.

use vstd::prelude::*;

use crate::action::{Action, KanIntent};
use crate::error::Error;
use crate::event::Event;
use crate::hand::{Hand, MeldKind, all_match, any_match, hand_sizes_ok, hand_total, meld_tile_count, remove_first};
use crate::rules::context::WinTimingFlags;
use crate::scoring::WinType;
use crate::state::calls::{
    CallKind, can_kakan, can_open_kan, can_pon, chi_hand_tiles, kakan_allowed, kamicha,
    lemma_same_face_members, next_seat_of, resolve_chi, resolve_closed_kan, resolve_kakan_tile,
    resolve_open_kan, resolve_pon, same_face, upgrade_pon_to_open_kan, valid_chi_sequence,
};
use crate::state::hand_state::{HandPhase, HandState, hands_total, kakan_window_ok, river_total};
use crate::state::play::{lemma_hands_total_update, lemma_river_total_update, same_flags};
use crate::state::replay::{lemma_replays_unchanged, lemma_table_unchanged, replays_to, table_event, table_of};
use crate::state::reaction::{
    ReactionKind, ReactionState, answered_ron, call_kind, call_kind_of, claim, complete, outranks,
    ron_order,
};
use crate::state::hand_state::HandEndReason;
use crate::state::wins::{lemma_wins_delta_same_table, wins_delta};
use crate::rules::config::max_rons_spec;
use crate::rules::standard::win::winning_hand;
use crate::tile::Tile;
use crate::wall::{kan_room, next_dora_pos, rinshan_pos};

verus! {

broadcast use {vstd::seq_lib::group_to_multiset_ensures, vstd::multiset::group_multiset_axioms};

/// Adding a meld of `k` tiles to a list adds `k` to its tile count.
pub proof fn lemma_meld_count_push(ms: Seq<crate::hand::Meld>, m: crate::hand::Meld)
    ensures
        meld_tile_count(ms.push(m)) == meld_tile_count(ms) + m.tiles@.len(),
{
    assert(ms.push(m).drop_last() =~= ms);
}

proof fn lemma_meld_count_update(ms: Seq<crate::hand::Meld>, i: int, m: crate::hand::Meld)
    requires
        0 <= i < ms.len(),
    ensures
        meld_tile_count(ms.update(i, m)) == meld_tile_count(ms) - ms[i].tiles@.len() + m.tiles@.len(),
    decreases ms.len(),
{
    if i == ms.len() - 1 {
        assert(ms.update(i, m).drop_last() =~= ms.drop_last());
    } else {
        lemma_meld_count_update(ms.drop_last(), i, m);
        assert(ms.update(i, m).drop_last() =~= ms.drop_last().update(i, m));
    }
}

/// The chi run `tiles` completes with `called` and two concealed tiles.
pub open spec fn chi_call_ok(concealed: Seq<Tile>, called: Tile, tiles: Seq<Tile>) -> bool {
    &&& valid_chi_sequence(tiles)
    &&& any_match(tiles, called)
    &&& forall|k: int| 0 <= k < 3 && (#[trigger] tiles[k]).kind != called.kind ==> concealed.contains(tiles[k])
    &&& chi_hand_tiles(tiles, called).len() == 2
}

/// `seat` may claim the tile of the open window with the call `action`.
pub open spec fn call_valid(s: HandState, seat: int, action: Action) -> bool {
    let r = s.reaction->0;
    let c = s.hands@[seat].concealed@;
    match action {
        Action::Chi { tiles } => seat == next_seat_of(r.discarder as int) && chi_call_ok(c, r.tile, tiles@),
        Action::Pon => same_face(c, r.tile).len() >= 2,
        Action::Kan(KanIntent::Open) => same_face(c, r.tile).len() >= 3,
        _ => false,
    }
}

/// A window on a discard where every answer so far is a pass, but for `w`, who may have
/// answered ron.
pub open spec fn ron_by_only(r: ReactionState, w: int) -> bool {
    &&& r.kind == ReactionKind::Discard
    &&& 0 <= w < 4
    &&& w != r.discarder
    &&& forall|k: int|
        0 <= k < 4 ==> (#[trigger] r.responses@[k]) is None || r.responses@[k] == Some(Action::Pass) || (k == w
            && r.responses@[k] == Some(Action::Ron))
}

/// A window on a discard that every seat answering so far has passed.
pub open spec fn all_passed(r: ReactionState) -> bool {
    &&& r.kind == ReactionKind::Discard
    &&& forall|k: int| 0 <= k < 4 ==> (#[trigger] r.responses@[k]) is None || r.responses@[k] == Some(Action::Pass)
}

/// `caller` can lay down the call `action` on `called` from the river of `discarder`: its hand
/// supports the call, the river holds a tile, it has room for a meld, and a kan finds a
/// replacement tile and a dora indicator in the dead wall.
pub open spec fn winning_call_ok(s: HandState, caller: int, action: Action, called: Tile, discarder: int) -> bool {
    let c = s.hands@[caller].concealed@;
    &&& match action {
        Action::Chi { tiles } => chi_call_ok(c, called, tiles@),
        Action::Pon => same_face(c, called).len() >= 2,
        Action::Kan(KanIntent::Open) => same_face(c, called).len() >= 3
            && kan_room(s.wall),
        _ => false,
    }
    &&& s.discards@[discarder]@.len() > 0
    &&& s.hands@[caller].melds@.len() < 4
}

/// Melds laid out by all four seats.
pub open spec fn melds_total(s: HandState) -> nat {
    s.hands@[0].melds@.len() + s.hands@[1].melds@.len() + s.hands@[2].melds@.len() + s.hands@[3].melds@.len()
}

/// A settled window: the hand left the reaction phase, melds and rinshan draws only grew,
/// the live wall only shrank, and a new discard turn comes only with a new meld or kan.
pub open spec fn settles(a: HandState, b: HandState) -> bool {
    &&& b.phase != HandPhase::Reaction
    &&& b.reaction is None
    &&& melds_total(b) >= melds_total(a)
    &&& b.wall.rinshans() >= a.wall.rinshans()
    &&& b.wall.live_seq().len() <= a.wall.live_seq().len()
    &&& b.phase == HandPhase::Discard ==> melds_total(b) > melds_total(a) || b.wall.rinshans() > a.wall.rinshans()
}

/// `b` is `a` after `seat` added the concealed fourth tile to the pon at `meld_index`: the
/// tile waits in a kakan window that the others may rob, and `ev` announces it.
pub open spec fn kakan_declared(a: HandState, seat: usize, meld_index: usize, ev: Seq<Event>, b: HandState) -> bool {
    let h = a.hands@[seat as int];
    let t = same_face(h.concealed@, h.melds@[meld_index as int].tiles@[0])[0];
    &&& ev == seq![Event::KakanDeclared { seat, meld_index, tile: t }]
    &&& b.phase == HandPhase::Reaction
    &&& b.reaction == Some(ReactionState {
        discarder: seat,
        tile: t,
        kind: ReactionKind::Kakan,
        kakan_meld_index: Some(meld_index),
        responses: [None, None, None, None],
    })
    &&& b.hands@[seat as int].concealed@ == remove_first(h.concealed@, t)
    &&& b.hands@[seat as int].melds@ == h.melds@
    &&& forall|i: int| 0 <= i < 4 && i != seat ==> #[trigger] b.hands@[i] == a.hands@[i]
    &&& b.discards == a.discards
    &&& b.wall == a.wall
    &&& b.current_actor == a.current_actor
    &&& same_flags(a, b)
    &&& b.accounted() == a.accounted()
}

/// The tiles a call `action` on `called` takes from the concealed tiles `c`, and the tiles
/// of the meld it lays down.
pub open spec fn call_taken(action: Action, c: Seq<Tile>, called: Tile) -> Seq<Tile> {
    match action {
        Action::Chi { tiles } => chi_hand_tiles(tiles@, called),
        Action::Pon => same_face(c, called).take(2),
        _ => same_face(c, called).take(3),
    }
}

/// The kind of meld a call lays down.
pub open spec fn call_meld_kind(action: Action) -> MeldKind {
    match action {
        Action::Chi { .. } => MeldKind::Chi,
        Action::Pon => MeldKind::Pon,
        _ => MeldKind::OpenKan,
    }
}

pub open spec fn call_meld_tiles(action: Action, c: Seq<Tile>, called: Tile) -> Seq<Tile> {
    match action {
        Action::Chi { tiles } => tiles@,
        _ => call_taken(action, c, called).push(called),
    }
}

/// `b` is `a` after the call of `c` took the discard of the window `rr`, with events `ev`: the
/// meld of its kind, every ippatsu chance over, and for an open kan the next dora indicator
/// revealed and the rinshan tile drawn.
pub open spec fn call_settled(a: HandState, rr: ReactionState, c: int, ev: Seq<Event>, b: HandState) -> bool {
    let action = rr.responses@[c]->0;
    let conc = a.hands@[c].concealed@;
    &&& b.hands@[c].melds@.last().kind == call_meld_kind(action)
    &&& b.ippatsu_live == [false, false, false, false]
    &&& ev.len() >= 1 && (ev[0] matches Event::Called { seat, from, meld, .. } && seat == c && from == rr.discarder
        && meld == call_meld_kind(action))
    &&& action is Kan ==> {
        let rin = a.wall.dead_seq()[rinshan_pos(a.wall.rinshans())];
        let dora = a.wall.dead_seq()[next_dora_pos(a.wall.kans())];
        &&& b.wall.kans() == a.wall.kans() + 1
        &&& b.wall.rinshans() == a.wall.rinshans() + 1
        &&& b.last_draw == Some(rin)
        &&& b.is_rinshan_draw
        &&& b.hands@[c].concealed@.to_multiset().add(call_taken(action, conc, rr.tile).to_multiset()) == conc.to_multiset().insert(rin)
        &&& ev.len() >= 3 && ev[1] == (Event::DoraRevealed { tile: dora }) && ev[2] == (Event::RinshanDrawn {
            seat: c as usize,
            tile: rin,
        })
    }
}

/// How the window `rr` of `a` was settled into `b`, with result `r`: ron winners (nearest
/// seats first, up to the rules' limit) end the hand and take the won tile out of play; an
/// unrobbed kakan completes; with no call and an empty live wall the hand ends in an
/// exhaustive draw, with tiles left the turn passes to the discarder's next seat; the best
/// call gives its caller the meld, the discard and the turn.
pub open spec fn settled_as(a: HandState, rr: ReactionState, r: Result<Vec<Event>, Error>, b: HandState) -> bool {
    &&& rons_settled(a, rr, r, b)
    &&& passes_settled(a, rr, r, b)
    &&& calls_settled(a, rr, r, b)
}

/// The window's rons, nearest seats first and up to the rules' limit: they succeed exactly
/// when every winner's hand wins on the tile (and a discard is there to take), end the hand
/// with those winners and the payments the `Won` events report, and take the tile out of play.
pub open spec fn rons_settled(a: HandState, rr: ReactionState, r: Result<Vec<Event>, Error>, b: HandState) -> bool {
    let winners = ron_winners_of(a, rr);
    &&& winners.len() > 0 ==> (r is Ok <==> (rr.kind == ReactionKind::Kakan || a.discards@[rr.discarder as int]@.len() > 0)
        && forall|i: int| 0 <= i < winners.len() ==> winning_hand(a.hands@[#[trigger] winners[i] as int], Some(rr.tile)))
    &&& winners.len() > 0 && r is Ok ==> b.phase == HandPhase::Ended && (b.end_reason matches Some(
        HandEndReason::Win { winners: w },
    ) && w@ == winners) && b.accounted() == a.accounted() - 1
    &&& winners.len() > 0 ==> (r matches Ok(ev) ==> (ev@.last() matches Event::ScoresAdjusted { deltas } && forall|k: int|
        0 <= k < 4 ==> {
            let total = wins_delta(a, ev@.drop_last(), WinType::Ron { from: rr.discarder }, k);
            &&& (i32::MIN <= total <= i32::MAX ==> #[trigger] deltas@[k] == total)
            &&& (i32::MIN <= a.scores@[k] + deltas@[k] <= i32::MAX ==> b.scores@[k] == a.scores@[k] + deltas@[k])
        }))
    &&& winners.len() == 0 && r is Ok ==> b.accounted() == a.accounted()
    &&& forall|w: int| #[trigger] ron_by_only(rr, w) && answered_ron(rr, w) && complete(rr) ==> (r is Ok <==> (a.discards@[rr.discarder as int]@.len() > 0
        && winning_hand(a.hands@[w], Some(rr.tile)))) && (r is Ok ==> b.phase
        == HandPhase::Ended && (b.end_reason matches Some(HandEndReason::Win { winners })
        && winners@ == seq![w as usize]))
}

/// The seats whose ron takes the tile: those that answered ron, nearest to the discarder
/// first, at most as many as the rules allow.
pub open spec fn ron_winners_of(a: HandState, rr: ReactionState) -> Seq<usize> {
    ron_order(rr).take(
        if max_rons_spec(a.config) < ron_order(rr).len() { max_rons_spec(a.config) as int } else { ron_order(rr).len() as int },
    )
}

/// A window without ron or call: an unrobbed kakan completes; on a discard the hand ends in
/// an exhaustive draw when the live wall is empty, else the turn passes to the next seat.
pub open spec fn passes_settled(a: HandState, rr: ReactionState, r: Result<Vec<Event>, Error>, b: HandState) -> bool {
    &&& ron_order(rr).len() == 0 && rr.kind == ReactionKind::Kakan && r is Ok ==> b.reaction is None
        && (b.phase == HandPhase::Ended || (b.phase == HandPhase::Discard
        && b.current_actor == rr.discarder))
    &&& ron_order(rr).len() == 0 && rr.kind == ReactionKind::Discard && !(exists|s: int| #[trigger] claim(rr, s) is Some)
        && a.wall.live_seq().len() == 0 ==> r is Ok && b.end_reason == Some(HandEndReason::ExhaustiveDraw)
    &&& complete(rr) && ron_order(rr).len() == 0 && rr.kind == ReactionKind::Discard && !(exists|s: int| #[trigger] claim(rr, s) is Some)
        && a.wall.live_seq().len() > 0 ==> (r matches Ok(ev) && ev@.len() == 0)
        && b.phase == HandPhase::Draw && b.current_actor == next_seat_of(rr.discarder as int)
        && b.reaction is None
}

/// The best call of a complete window without ron: it succeeds exactly when the caller can
/// make it, and then lays down its meld (see `call_settled`).
pub open spec fn calls_settled(a: HandState, rr: ReactionState, r: Result<Vec<Event>, Error>, b: HandState) -> bool {
    &&& forall|c: int| complete(rr) && ron_order(rr).len() == 0 && rr.kind == ReactionKind::Discard
        && #[trigger] claim_winner(rr, c) ==> (r is Ok <==> winning_call_ok(a, c, rr.responses@[c]->0, rr.tile, rr.discarder as int))
    &&& forall|c: int| complete(rr) && ron_order(rr).len() == 0 && rr.kind == ReactionKind::Discard
        && #[trigger] claim_winner(rr, c) && r is Ok ==> call_settled(a, rr, c, r->Ok_0@, b)
    &&& forall|c: int| complete(rr) && ron_order(rr).len() == 0 && rr.kind == ReactionKind::Discard
        && #[trigger] claim_winner(rr, c) && r is Ok ==> b.calls_made && b.reaction is None
        && b.hands@[c].melds@.len() == a.hands@[c].melds@.len() + 1
        && b.hands@[c].melds@.last().called == Some(rr.tile)
        && b.hands@[c].melds@.last().tiles@ == call_meld_tiles(rr.responses@[c]->0, a.hands@[c].concealed@, rr.tile)
        && (!(rr.responses@[c]->0 is Kan) ==> b.hands@[c].concealed@.to_multiset().add(
            call_taken(rr.responses@[c]->0, a.hands@[c].concealed@, rr.tile).to_multiset(),
        ) == a.hands@[c].concealed@.to_multiset())
        && b.discards@[rr.discarder as int]@ == a.discards@[rr.discarder as int]@.drop_last()
        && (b.phase == HandPhase::Discard && b.current_actor == c || (rr.responses@[c]->0 is Kan
        && b.phase == HandPhase::Ended))
}

/// `c` holds the call that takes the tile: it outranks every other call.
pub open spec fn claim_winner(r: ReactionState, c: int) -> bool {
    &&& 0 <= c < 4
    &&& claim(r, c) is Some
    &&& forall|s: int| 0 <= s < 4 && s != c && (#[trigger] claim(r, s)) is Some ==> outranks(r, c, s)
}

/// The seats listed by `ron_order` are seats that answered ron.
proof fn lemma_ron_order_seats(r: ReactionState)
    requires
        r.discarder < 4,
    ensures
        forall|i: int| 0 <= i < ron_order(r).len() ==> #[trigger] ron_order(r)[i] < 4 && answered_ron(r, ron_order(r)[i] as int),
{
}

impl HandState {
    /// Whether `seat` still owes an answer: a reaction window is open, `seat` did not open it
    /// and has not answered yet.
    pub open spec fn can_respond_spec(&self, seat: usize) -> bool {
        self.reaction matches Some(r) && seat != r.discarder && r.responses@[seat as int] is None
    }

    /// Whether `seat` still owes an answer to the open reaction window.
    pub fn can_respond(&self, seat: usize) -> (b: bool)
        requires
            seat < 4,
        ensures
            b == self.can_respond_spec(seat),
    {
        match &self.reaction {
            Some(r) => r.can_respond(seat),
            None => false,
        }
    }

    /// The first seat that still owes an answer, during a reaction window.
    pub fn pending_reaction_seat(&self) -> (s: Option<usize>)
        ensures
            self.phase != HandPhase::Reaction ==> s is None,
            s matches Some(seat) ==> seat < 4 && self.can_respond_spec(seat),
            self.phase == HandPhase::Reaction && (exists|seat: usize| seat < 4 && #[trigger] self.can_respond_spec(seat)) ==> s is Some,
    {
        if self.phase != HandPhase::Reaction {
            return None;
        }
        let mut seat: usize = 0;
        while seat < 4
            invariant
                seat <= 4,
                self.phase == HandPhase::Reaction,
                forall|k: usize| k < seat ==> !#[trigger] self.can_respond_spec(k),
            decreases 4 - seat,
        {
            if self.can_respond(seat) {
                return Some(seat);
            }
            seat = seat + 1;
        }
        None
    }

    /// Takes the called discard off the discarder's river.
    pub fn pop_called_discard(&mut self, discarder: usize) -> (r: Result<(), Error>)
        requires
            old(self).wf(),
            discarder < 4,
        ensures
            final(self).wf(),
            r is Ok <==> old(self).discards@[discarder as int]@.len() > 0,
            r is Err ==> *final(self) == *old(self),
            r is Ok ==> {
                &&& final(self).discards@[discarder as int]@ == old(self).discards@[discarder as int]@.drop_last()
                &&& forall|i: int| 0 <= i < 4 && i != discarder ==> #[trigger] final(self).discards@[i] == old(self).discards@[i]
                &&& river_total(final(self).discards@) == river_total(old(self).discards@) - 1
                &&& final(self).hands == old(self).hands
                &&& final(self).wall == old(self).wall
                &&& final(self).reaction == old(self).reaction
                &&& final(self).phase == old(self).phase
                &&& *final(self) == (HandState { discards: final(self).discards, last_discard: final(self).last_discard, ..*old(self) })
                &&& final(self).last_discard == (if old(self).last_discard == Some(
                    (discarder, old(self).discards@[discarder as int]@.last()),
                ) {
                    None
                } else {
                    old(self).last_discard
                })
            },
    {
        let n = self.discards[discarder].len();
        if n == 0 {
            return Err(Error::InvalidCall { kind: CallKind::Pon, reason: "no discard to call" });
        }
        let ghost old_d = self.discards@;
        let tile = self.discards[discarder][n - 1];
        let _ = self.discards[discarder].pop();
        proof {
            assert(self.discards@ == old_d.update(discarder as int, self.discards@[discarder as int]));
            lemma_river_total_update(old_d, discarder as int, self.discards@[discarder as int]);
            assert(self.discards@[discarder as int]@ =~= old_d[discarder as int]@.drop_last());
        }
        if let Some((d, t)) = self.last_discard {
            if d == discarder && t == tile {
                self.last_discard = None;
            }
        }
        Ok(())
    }

    /// Declares a closed kan of the face of `tile` on one's own turn and draws the rinshan tile.
    pub(crate) fn apply_closed_kan(&mut self, seat: usize, tile: Tile) -> (r: Result<Vec<Event>, Error>)
        requires
            old(self).wf(),
            old(self).phase != HandPhase::Reaction,
            seat < 4,
        ensures
            final(self).wf(),
            same_face(old(self).hands@[seat as int].concealed@, tile).len() < 4 ==> (r matches Err(
                Error::InvalidCall { kind: CallKind::OpenKan, .. },
            )),
            r is Err ==> *final(self) == *old(self),
            r is Ok ==> final(self).accounted() == old(self).accounted(),
            r is Ok ==> final(self).phase == old(self).phase || final(self).phase == HandPhase::Ended,
            r is Ok ==> final(self).hands@[seat as int].melds@.len() == old(self).hands@[seat as int].melds@.len() + 1
                && final(self).hands@[seat as int].melds@.last().kind == MeldKind::ClosedKan
                && final(self).is_rinshan_draw && final(self).wall.kans() == old(self).wall.kans() + 1,
            r matches Ok(ev) ==> ev@.len() >= 3 && ev@[0] matches Event::Called { meld: MeldKind::ClosedKan, .. },
            r is Ok <==> same_face(old(self).hands@[seat as int].concealed@, tile).len() >= 4
                && old(self).hands@[seat as int].melds@.len() < 4 && kan_room(old(self).wall),
            same_face(old(self).hands@[seat as int].concealed@, tile).len() >= 4 && old(self).hands@[seat as int].melds@.len()
                >= 4 ==> (r matches Err(Error::InvalidHandShape { .. })),
            r matches Ok(ev) ==> {
                let c = old(self).hands@[seat as int].concealed@;
                let k = same_face(c, tile).take(4);
                let rin = old(self).wall.dead_seq()[rinshan_pos(old(self).wall.rinshans())];
                let dora = old(self).wall.dead_seq()[next_dora_pos(old(self).wall.kans())];
                let h = final(self).hands@[seat as int];
                &&& (ev@[0] matches Event::Called { seat: s, from, tiles, .. } && s == seat && from == seat && tiles@ == k)
                &&& ev@[1] == Event::DoraRevealed { tile: dora }
                &&& ev@[2] == Event::RinshanDrawn { seat, tile: rin }
                &&& h.melds@.drop_last() == old(self).hands@[seat as int].melds@
                &&& h.melds@.last().tiles@ == k
                &&& h.melds@.last().called is None
                &&& h.concealed@.to_multiset().add(k.to_multiset()) == c.to_multiset().insert(rin)
                &&& forall|i: int| 0 <= i < 4 && i != seat ==> #[trigger] final(self).hands@[i] == old(self).hands@[i]
                &&& final(self).discards == old(self).discards
                &&& final(self).last_draw == Some(rin)
                &&& final(self).wall.live_seq() == old(self).wall.live_seq()
            },
    {
        let meld = match resolve_closed_kan(&self.hands[seat].concealed, tile) {
            Ok(m) => m,
            Err(e) => {
                return Err(e);
            },
        };
        if self.hands[seat].melds.len() >= 4 {
            let c = self.hands[seat].concealed.len();
            let m = self.hands[seat].melds.len();
            return Err(Error::InvalidHandShape { concealed: c, melds: m });
        }
        let ghost before = *self;
        let ghost old_hands = self.hands@;
        let (rinshan, dora) = match self.wall.apply_kan() {
            Ok(p) => p,
            Err(e) => {
                return Err(e);
            },
        };
        let tiles = crate::hand::copy_tiles(meld.tiles.as_slice());
        match self.hands[seat].remove_all(tiles.as_slice()) {
            Ok(()) => {},
            Err(e) => {
                proof {
                    assert(false);
                }
                return Err(e);
            },
        }
        self.hands[seat].push_meld(meld);
        self.hands[seat].push_concealed(rinshan);
        self.hands[seat].sort_concealed();
        self.last_draw = Some(rinshan);
        self.is_rinshan_draw = true;
        self.void_ippatsu();
        proof {
            let h = self.hands@[seat as int];
            let oh = old_hands[seat as int];
            lemma_meld_count_push(oh.melds@, meld);
            assert(h.melds@ == oh.melds@.push(meld));
            assert(hand_total(h) == hand_total(oh) + 1);
            assert(self.hands@ == old_hands.update(seat as int, h));
            lemma_hands_total_update(old_hands, seat as int, h);
            assert forall|i: int| 0 <= i < 4 implies hand_sizes_ok(#[trigger] self.hands@[i]) by {
                if i == seat {
                    assert(hand_sizes_ok(oh));
                    assert forall|k: int| 0 <= k < h.melds@.len() implies 1 <= (#[trigger] h.melds@[k]).tiles@.len() <= 4 by {
                        if k < oh.melds@.len() {
                            assert(h.melds@[k] == oh.melds@[k]);
                        }
                    }
                }
            }
            if let Some(rr) = self.reaction {
                if rr.kind == ReactionKind::Kakan {
                    assert(kakan_window_ok(before, rr));
                }
            }
            assert(self.reaction is None || self.reaction->0.kind != ReactionKind::Kakan);
        }
        let mut events: Vec<Event> = Vec::new();
        events.push(Event::Called { seat, from: seat, meld: MeldKind::ClosedKan, tiles });
        events.push(Event::DoraRevealed { tile: dora });
        events.push(Event::RinshanDrawn { seat, tile: rinshan });
        if let Some(kind) = self.check_abortive_after_kan() {
            let r = self.resolve_abortive_draw(kind, events);
            proof {
                assert(r->Ok_0@[0] == events@[0]);
                assert(r->Ok_0@[1] == events@[1]);
                assert(r->Ok_0@[2] == events@[2]);
            }
            return r;
        }
        Ok(events)
    }

    /// Declares an added kan (kakan) on the pon at `meld_index` with its concealed fourth
    /// tile, opening a window in which the others may rob it (chankan).
    pub(crate) fn apply_kakan(&mut self, seat: usize, meld_index: usize) -> (r: Result<Vec<Event>, Error>)
        requires
            old(self).wf(),
            seat < 4,
        ensures
            final(self).wf(),
            old(self).phase != HandPhase::Discard ==> (r matches Err(Error::WrongPhase { expected: HandPhase::Discard, actual })
                && actual == old(self).phase),
            old(self).phase == HandPhase::Discard && !kakan_allowed(old(self).hands@[seat as int], meld_index as int) ==> (r matches Err(
                Error::InvalidCall { kind: CallKind::OpenKan, .. },
            )),
            r is Err ==> *final(self) == *old(self),
            r is Ok <==> old(self).phase == HandPhase::Discard && kakan_allowed(old(self).hands@[seat as int], meld_index as int),
            r matches Ok(ev) ==> kakan_declared(*old(self), seat, meld_index, ev@, *final(self)),
    {
        if self.phase != HandPhase::Discard {
            return Err(Error::WrongPhase { expected: HandPhase::Discard, actual: self.phase });
        }
        if !can_kakan(&self.hands[seat], meld_index) {
            return Err(Error::InvalidCall { kind: CallKind::OpenKan, reason: "cannot kakan" });
        }
        let tile = match resolve_kakan_tile(&self.hands[seat], meld_index) {
            Ok(t) => t,
            Err(e) => {
                return Err(e);
            },
        };
        let ghost old_hands = self.hands@;
        let ghost before = *self;
        proof {
            let h = old_hands[seat as int];
            lemma_same_face_members(h.concealed@, h.melds@[meld_index as int].tiles@[0]);
        }
        match self.hands[seat].remove_concealed(tile) {
            Ok(()) => {},
            Err(e) => {
                proof {
                    assert(false);
                }
                return Err(e);
            },
        }
        self.phase = HandPhase::Reaction;
        self.reaction = Some(ReactionState::new_kakan(seat, tile, meld_index));
        self.void_ippatsu();
        proof {
            let h = self.hands@[seat as int];
            let oc = old_hands[seat as int].concealed@;
            assert(oc.contains(tile));
            assert(h.concealed@.to_multiset() =~= oc.to_multiset().remove(tile));
            assert(h.concealed@.to_multiset().len() == h.concealed@.len());
            assert(oc.to_multiset().len() == oc.len());
            assert(h.concealed@.len() == oc.len() - 1);
            assert(hand_total(h) == hand_total(old_hands[seat as int]) - 1);
            assert(self.hands@ == old_hands.update(seat as int, h));
            lemma_hands_total_update(old_hands, seat as int, h);
            assert forall|i: int| 0 <= i < 4 implies hand_sizes_ok(#[trigger] self.hands@[i]) by {
                if i == seat {
                    assert(hand_sizes_ok(old_hands[i]));
                }
            }
            if let Some(rr) = before.reaction {
                if rr.kind == ReactionKind::Kakan {
                    assert(kakan_window_ok(before, rr));
                }
            }
        }
        let mut events: Vec<Event> = Vec::new();
        events.push(Event::KakanDeclared { seat, meld_index, tile });
        Ok(events)
    }

    /// Lays the kakan tile on its pon once nobody robbed it, draws the rinshan tile and hands
    /// the turn back to the declarer (or ends the hand on a fourth-kan abortive draw).
    pub(crate) fn complete_kakan(&mut self, seat: usize, meld_index: usize, tile: Tile) -> (r: Result<Vec<Event>, Error>)
        requires
            old(self).wf(),
            old(self).reaction is None,
            seat < 4,
            meld_index < old(self).hands@[seat as int].melds@.len(),
        ensures
            final(self).wf(),
            r is Err ==> *final(self) == *old(self),
            ({
                let pon = old(self).hands@[seat as int].melds@[meld_index as int];
                r is Ok <==> pon.kind == MeldKind::Pon && pon.tiles@.len() == 3 && all_match(pon.tiles@.push(tile), pon.tiles@[0])
                    && old(self).hands@[seat as int].concealed@.len() < 136
                    && kan_room(old(self).wall)
            }),
            r is Ok ==> {
                let pon = old(self).hands@[seat as int].melds@[meld_index as int];
                &&& final(self).reaction is None
                &&& final(self).hands@[seat as int].melds@[meld_index as int].kind == MeldKind::OpenKan
                &&& final(self).hands@[seat as int].melds@[meld_index as int].tiles@ == pon.tiles@.push(tile)
                &&& final(self).hands@[seat as int].melds@.len() == old(self).hands@[seat as int].melds@.len()
                &&& final(self).last_draw == Some(old(self).wall.dead_seq()[rinshan_pos(old(self).wall.rinshans())])
                &&& final(self).is_rinshan_draw
                &&& final(self).wall.kans() == old(self).wall.kans() + 1
                &&& final(self).wall.rinshans() == old(self).wall.rinshans() + 1
                &&& final(self).wall.live_seq() == old(self).wall.live_seq()
                &&& forall|i: int| 0 <= i < 4 && i != seat ==> #[trigger] final(self).hands@[i] == old(self).hands@[i]
                &&& final(self).accounted() == old(self).accounted() + 1
                &&& (final(self).phase == HandPhase::Ended || (final(self).phase == HandPhase::Discard
                    && final(self).current_actor == seat))
            },
            r matches Ok(ev) ==> ev@.len() >= 3 && ev@[0] matches Event::Called { meld: MeldKind::OpenKan, .. },
    {
        let upgraded = match upgrade_pon_to_open_kan(&self.hands[seat].melds[meld_index], tile) {
            Ok(m) => m,
            Err(e) => {
                return Err(e);
            },
        };
        if self.hands[seat].concealed.len() >= 136 {
            let c = self.hands[seat].concealed.len();
            let m = self.hands[seat].melds.len();
            return Err(Error::InvalidHandShape { concealed: c, melds: m });
        }
        let ghost old_hands = self.hands@;
        let (rinshan, dora) = match self.wall.apply_kan() {
            Ok(p) => p,
            Err(e) => {
                return Err(e);
            },
        };
        let meld_tiles = crate::hand::copy_tiles(upgraded.tiles.as_slice());
        self.hands[seat].replace_meld(meld_index, upgraded);
        self.hands[seat].push_concealed(rinshan);
        self.hands[seat].sort_concealed();
        self.last_draw = Some(rinshan);
        self.is_rinshan_draw = true;
        self.void_ippatsu();
        proof {
            let h = self.hands@[seat as int];
            let oh = old_hands[seat as int];
            lemma_meld_count_update(oh.melds@, meld_index as int, upgraded);
            assert(h.melds@ == oh.melds@.update(meld_index as int, upgraded));
            assert(hand_total(h) == hand_total(oh) + 2);
            assert(self.hands@ == old_hands.update(seat as int, h));
            lemma_hands_total_update(old_hands, seat as int, h);
            assert forall|i: int| 0 <= i < 4 implies hand_sizes_ok(#[trigger] self.hands@[i]) by {
                if i == seat {
                    assert(hand_sizes_ok(oh));
                    assert forall|k: int| 0 <= k < h.melds@.len() implies 1 <= (#[trigger] h.melds@[k]).tiles@.len() <= 4 by {
                        if k != meld_index {
                            assert(h.melds@[k] == oh.melds@[k]);
                        }
                    }
                }
            }
        }
        let mut events: Vec<Event> = Vec::new();
        events.push(Event::Called { seat, from: seat, meld: MeldKind::OpenKan, tiles: meld_tiles });
        events.push(Event::DoraRevealed { tile: dora });
        events.push(Event::RinshanDrawn { seat, tile: rinshan });
        if let Some(kind) = self.check_abortive_after_kan() {
            return self.resolve_abortive_draw(kind, events);
        }
        self.current_actor = seat;
        self.phase = HandPhase::Discard;
        Ok(events)
    }

    /// Checks that `seat` may make the call `action` on the tile of the open window: chi only
    /// from the discarder's next seat, on a run it can complete; pon with two, open kan with
    /// three tiles of the face; any other action is illegal here.
    pub(crate) fn validate_call_action(&self, seat: usize, action: Action) -> (r: Result<(), Error>)
        requires
            self.wf(),
            self.reaction is Some,
            seat < 4,
        ensures
            r is Ok <==> call_valid(*self, seat as int, action),
            (action matches Action::Chi { .. }) && seat != next_seat_of(self.reaction->0.discarder as int) ==> (r matches Err(
                Error::InvalidCall { kind: CallKind::Chi, .. },
            )),
            action is Pon && !call_valid(*self, seat as int, action) ==> (r matches Err(Error::InvalidCall { kind: CallKind::Pon, .. })),
            action == Action::Kan(KanIntent::Open) && !call_valid(*self, seat as int, action) ==> (r matches Err(
                Error::InvalidCall { kind: CallKind::OpenKan, .. },
            )),
            call_kind_of(action) is None ==> r == Err::<(), Error>(Error::IllegalAction { action, phase: HandPhase::Reaction }),
    {
        let reaction = match self.reaction {
            Some(rr) => rr,
            None => {
                return Err(Error::IllegalAction { action, phase: HandPhase::Reaction });
            },
        };
        let called = reaction.tile;
        match action {
            Action::Chi { tiles } => {
                if seat != kamicha(reaction.discarder) {
                    return Err(Error::InvalidCall { kind: CallKind::Chi, reason: "chii only from kamicha" });
                }
                match resolve_chi(&self.hands[seat].concealed, called, tiles) {
                    Ok(_) => Ok(()),
                    Err(e) => Err(e),
                }
            },
            Action::Pon => {
                if !can_pon(&self.hands[seat].concealed, called) {
                    return Err(Error::InvalidCall { kind: CallKind::Pon, reason: "cannot pon" });
                }
                Ok(())
            },
            Action::Kan(KanIntent::Open) => {
                if !can_open_kan(&self.hands[seat].concealed, called) {
                    return Err(Error::InvalidCall { kind: CallKind::OpenKan, reason: "cannot open kan" });
                }
                Ok(())
            },
            _ => Err(Error::IllegalAction { action, phase: HandPhase::Reaction }),
        }
    }

    /// Ends the hand with the single win of `winner` on `win_tile`.
    pub(crate) fn resolve_win(&mut self, winner: usize, win_type: WinType, win_tile: Tile) -> (r: Result<Vec<Event>, Error>)
        requires
            old(self).wf(),
            winner < 4,
            win_type matches WinType::Ron { from } ==> from < 4,
        ensures
            final(self).wf(),
            r is Ok <==> winning_hand(old(self).hands@[winner as int], Some(win_tile)),
            r is Err ==> *final(self) == *old(self) && (r matches Err(Error::CannotWin)),
            r is Ok ==> {
                &&& final(self).phase == HandPhase::Ended
                &&& final(self).reaction is None
                &&& (final(self).end_reason matches Some(HandEndReason::Win { winners }) && winners@ == seq![winner])
                &&& final(self).table_riichi_sticks == 0
                &&& final(self).hands == old(self).hands
                &&& final(self).discards == old(self).discards
                &&& final(self).wall == old(self).wall
            },
            r matches Ok(ev) ==> ev@.len() == 2 && (ev@[0] matches Event::Won { seat, .. } && seat == winner),
            r matches Ok(ev) ==> replays_to(*old(self), ev@, *final(self)),
    {
        let mut winners: Vec<usize> = Vec::new();
        winners.push(winner);
        proof {
            assert(winners@ =~= seq![winner]);
        }
        let ghost before = *self;
        let r = self.resolve_multi_ron(winners, win_type, win_tile, WinTimingFlags::default());
        proof {
            if r is Ok {
                assert(winners@[0] == winner);
                let ev = r->Ok_0@;
                assert(ev[0] matches Event::Won { .. });
                assert(ev[1] == ev.last());
                assert forall|k: int| 0 <= k < ev.len() implies table_event(#[trigger] ev[k]) && !(ev[k] is Drawn)
                    && !(ev[k] is Discarded) by {
                    if k == 0 {
                    } else {
                        assert(k == 1);
                    }
                }
                lemma_replays_unchanged(before, ev, *self);
            } else {
                assert(winners@[0] == winner);
            }
        }
        r
    }

    /// Settles a window everyone has answered: ron wins first (nearest seats, up to the
    /// rules' limit), then an unrobbed kakan, then the best call; with no call the turn moves
    /// on, or the hand ends in an exhaustive draw when the live wall is empty.
    #[verifier::rlimit(40)]
    pub(crate) fn resolve_reaction(&mut self) -> (r: Result<Vec<Event>, Error>)
        requires
            old(self).wf(),
            old(self).reaction is Some,
        ensures
            final(self).wf(),
            r is Ok ==> settles(*old(self), *final(self)),
            settled_as(*old(self), old(self).reaction->0, r, *final(self)),
            all_passed(old(self).reaction->0) && r is Ok ==> (r matches Ok(ev) && replays_to(*old(self), ev@, *final(self))),
            all_passed(old(self).reaction->0) && complete(old(self).reaction->0) ==> r is Ok && table_of(*final(self)) == table_of(
                *old(self),
            ) && (final(self).phase == HandPhase::Ended || (final(self).phase == HandPhase::Draw
                && final(self).wall.live_seq().len() > 0)),
    {
        let ghost before = *self;
        let reaction = match self.reaction {
            Some(rr) => rr,
            None => {
                return Err(Error::ReplayMismatch { detail: "reaction resolve without reaction state" });
            },
        };
        proof {
            lemma_ron_order_seats(reaction);
        }
        self.reaction = None;
        let max_rons = self.config.max_rons();
        let winners = reaction.ron_winners(max_rons);
        let is_chankan = reaction.kind == ReactionKind::Kakan;
        if winners.len() > 0 {
            let from = reaction.discarder;
            let win_tile = reaction.tile;
            if reaction.kind == ReactionKind::Discard {
                match self.pop_called_discard(from) {
                    Ok(()) => {},
                    Err(e) => {
                        return Err(e);
                    },
                }
            }
            let ghost w = winners@;
            proof {
                assert forall|v: int| #[trigger] ron_by_only(reaction, v) && answered_ron(reaction, v) implies w
                    =~= seq![v as usize] by {
                    let d = reaction.discarder as int;
                    assert(forall|k: int| 0 <= k < 4 && k != v ==> !answered_ron(reaction, k));
                    assert(ron_order(reaction) =~= seq![v as usize]);
                }
            }
            let ghost popped = *self;
            let r = self.resolve_multi_ron(winners, WinType::Ron { from }, win_tile, WinTimingFlags { is_chankan });
            proof {
                if r is Ok {
                    let ev = r->Ok_0@;
                    assert forall|k: int| 0 <= k < 4 implies wins_delta(popped, ev.drop_last(), WinType::Ron { from }, k)
                        == wins_delta(before, ev.drop_last(), WinType::Ron { from }, k) by {
                        lemma_wins_delta_same_table(popped, before, ev.drop_last(), WinType::Ron { from }, k);
                    }
                }
                assert forall|v: int| #[trigger] ron_by_only(reaction, v) && answered_ron(reaction, v) && complete(reaction)
                    implies (r is Ok <==> (before.discards@[reaction.discarder as int]@.len() > 0 && winning_hand(
                    before.hands@[v],
                    Some(reaction.tile),
                ))) && (r is Ok ==> self.phase == HandPhase::Ended && (self.end_reason matches Some(
                    HandEndReason::Win { winners },
                ) && winners@ == seq![v as usize])) by {
                    assert(w == seq![v as usize]);
                    assert(w[0] == v as usize);
                    assert(popped.hands == before.hands);
                    if winning_hand(before.hands@[v], Some(reaction.tile)) {
                        assert forall|i: int| 0 <= i < w.len() implies winning_hand(popped.hands@[#[trigger] w[i] as int], Some(win_tile)) by {
                            assert(i == 0);
                        }
                    }
                }
                assert(ron_order(reaction).len() > 0);
                assert(rons_settled(before, reaction, r, *self));
                assert(passes_settled(before, reaction, r, *self));
                assert(calls_settled(before, reaction, r, *self));
                assert forall|c: int| complete(reaction) && ron_order(reaction).len() == 0 && reaction.kind == ReactionKind::Discard
                    && #[trigger] claim_winner(reaction, c) implies (r is Ok <==> winning_call_ok(
                    before,
                    c,
                    reaction.responses@[c]->0,
                    reaction.tile,
                    reaction.discarder as int,
                )) by {}
            }
            return r;
        }
        if reaction.kind == ReactionKind::Kakan {
            let seat = reaction.discarder;
            let meld_index = match reaction.kakan_meld_index {
                Some(i) => i,
                None => {
                    return Err(Error::ReplayMismatch { detail: "kakan reaction missing meld index" });
                },
            };
            proof {
                assert(kakan_window_ok(before, reaction));
            }
            return self.complete_kakan(seat, meld_index, reaction.tile);
        }
        let (caller, action) = match reaction.winning_call() {
            Some(w) => w,
            None => {
                if self.wall.live_remaining() == 0 {
                    let r = self.resolve_exhaustive_draw(Vec::new());
                    proof {
                        if all_passed(reaction) {
                            assert(r->Ok_0@ =~= seq![r->Ok_0@.last()]);
                            lemma_replays_unchanged(before, r->Ok_0@, *self);
                        }
                        lemma_table_unchanged(before, *self);
                    }
                    return r;
                }
                self.phase = HandPhase::Draw;
                self.current_actor = kamicha(reaction.discarder);
                proof {
                    lemma_replays_unchanged(before, Seq::empty(), *self);
                    lemma_table_unchanged(before, *self);
                }
                return Ok(Vec::new());
            },
        };
        proof {
            assert(claim(reaction, caller as int) is Some);
            assert(call_kind_of(action) is Some);
        }
        let ghost cleared = *self;
        let r = self.apply_winning_call(caller, action, reaction.tile, reaction.discarder);
        proof {
            assert forall|c: int| #[trigger] claim_winner(reaction, c) implies c == caller as int by {
                if c != caller as int {
                    assert(outranks(reaction, c, caller as int));
                    assert(outranks(reaction, caller as int, c));
                }
            }
            assert(winning_call_ok(cleared, caller as int, action, reaction.tile, reaction.discarder as int)
                == winning_call_ok(before, caller as int, action, reaction.tile, reaction.discarder as int));
        }
        r
    }

    /// Lays down the call `action` of `caller` on `called`, taken from the river of
    /// `discarder`; an open kan also reveals a dora and draws the rinshan tile.
    #[verifier::rlimit(40)]
    pub(crate) fn apply_winning_call(&mut self, caller: usize, action: Action, called: Tile, discarder: usize) -> (r: Result<Vec<Event>, Error>)
        requires
            old(self).wf(),
            old(self).reaction is None,
            caller < 4,
            discarder < 4,
            call_kind_of(action) is Some,
        ensures
            final(self).wf(),
            r is Ok ==> final(self).accounted() == old(self).accounted(),
            r is Ok ==> final(self).calls_made && final(self).reaction is None
                && final(self).hands@[caller as int].melds@.len() == old(self).hands@[caller as int].melds@.len() + 1
                && (forall|i: int| 0 <= i < 4 && i != caller ==> #[trigger] final(self).hands@[i] == old(self).hands@[i])
                && final(self).wall.live_seq() == old(self).wall.live_seq()
                && final(self).wall.rinshans() >= old(self).wall.rinshans()
                && (final(self).phase == HandPhase::Ended || (final(self).phase == HandPhase::Discard
                && final(self).current_actor == caller)),
            r matches Ok(ev) ==> ev@.len() >= 1 && (ev@[0] matches Event::Called { seat, from, meld, .. } && seat == caller && from == discarder && meld == call_meld_kind(action)),
            r is Ok <==> winning_call_ok(*old(self), caller as int, action, called, discarder as int),
            r is Ok ==> final(self).discards@[discarder as int]@ == old(self).discards@[discarder as int]@.drop_last()
                && final(self).hands@[caller as int].melds@.last().called == Some(called),
            r is Ok ==> final(self).hands@[caller as int].melds@.last().tiles@ == call_meld_tiles(
                action,
                old(self).hands@[caller as int].concealed@,
                called,
            ),
            r is Ok && !(action is Kan) ==> final(self).phase == HandPhase::Discard && final(self).current_actor == caller,
            r is Ok ==> final(self).hands@[caller as int].melds@.last().kind == call_meld_kind(action),
            r is Ok ==> final(self).ippatsu_live == [false, false, false, false],
            r is Ok && action is Kan ==> {
                let c = old(self).hands@[caller as int].concealed@;
                let rin = old(self).wall.dead_seq()[rinshan_pos(old(self).wall.rinshans())];
                let dora = old(self).wall.dead_seq()[next_dora_pos(old(self).wall.kans())];
                &&& final(self).wall.kans() == old(self).wall.kans() + 1
                &&& final(self).wall.rinshans() == old(self).wall.rinshans() + 1
                &&& final(self).last_draw == Some(rin)
                &&& final(self).is_rinshan_draw
                &&& final(self).hands@[caller as int].concealed@.to_multiset().add(call_taken(action, c, called).to_multiset())
                    == c.to_multiset().insert(rin)
                &&& (r matches Ok(ev) && ev@.len() >= 3 && ev@[1] == (Event::DoraRevealed { tile: dora }) && ev@[2] == (
                Event::RinshanDrawn { seat: caller, tile: rin }))
            },
            r is Ok && !(action is Kan) ==> final(self).hands@[caller as int].concealed@.to_multiset().add(
                call_taken(action, old(self).hands@[caller as int].concealed@, called).to_multiset(),
            ) == old(self).hands@[caller as int].concealed@.to_multiset(),
    {
        let resolved = match action {
            Action::Chi { tiles } => resolve_chi(&self.hands[caller].concealed, called, tiles),
            Action::Pon => resolve_pon(&self.hands[caller].concealed, called),
            Action::Kan(KanIntent::Open) => resolve_open_kan(&self.hands[caller].concealed, called),
            _ => Err(Error::IllegalAction { action, phase: HandPhase::Reaction }),
        };
        let resolved = match resolved {
            Ok(c) => c,
            Err(e) => {
                return Err(e);
            },
        };
        if self.discards[discarder].len() == 0 {
            return Err(Error::InvalidCall { kind: CallKind::Pon, reason: "no discard to call" });
        }
        if self.hands[caller].melds.len() >= 4 {
            let c = self.hands[caller].concealed.len();
            let m = self.hands[caller].melds.len();
            return Err(Error::InvalidHandShape { concealed: c, melds: m });
        }
        let is_kan = resolved.kind == CallKind::OpenKan;
        let mut kan_tiles: Option<(Tile, Tile)> = None;
        if is_kan {
            match self.wall.apply_kan() {
                Ok(p) => {
                    kan_tiles = Some(p);
                },
                Err(e) => {
                    return Err(e);
                },
            }
        }
        let ghost mid = *self;
        match self.pop_called_discard(discarder) {
            Ok(()) => {},
            Err(e) => {
                proof {
                    assert(false);
                }
                return Err(e);
            },
        }
        let ghost popped = *self;
        let meld_kind = resolved.meld.kind;
        let meld_tiles = crate::hand::copy_tiles(resolved.meld.tiles.as_slice());
        match self.hands[caller].remove_all(resolved.remove_from_concealed.as_slice()) {
            Ok(()) => {},
            Err(e) => {
                proof {
                    assert(false);
                }
                return Err(e);
            },
        }
        let ghost m = resolved.meld;
        self.hands[caller].push_meld(resolved.meld);
        self.calls_made = true;
        self.void_ippatsu();
        let mut events: Vec<Event> = Vec::new();
        events.push(Event::Called { seat: caller, from: discarder, meld: meld_kind, tiles: meld_tiles });
        if let Some((rinshan, dora)) = kan_tiles {
            self.hands[caller].push_concealed(rinshan);
            self.hands[caller].sort_concealed();
            self.last_draw = Some(rinshan);
            self.is_rinshan_draw = true;
        }
        proof {
            let h = self.hands@[caller as int];
            let oh = popped.hands@[caller as int];
            lemma_meld_count_push(oh.melds@, m);
            assert(h.melds@ == oh.melds@.push(m));
            assert(self.hands@ == popped.hands@.update(caller as int, h));
            lemma_hands_total_update(popped.hands@, caller as int, h);
            assert forall|i: int| 0 <= i < 4 implies hand_sizes_ok(#[trigger] self.hands@[i]) by {
                if i == caller {
                    assert(hand_sizes_ok(oh));
                    assert forall|k: int| 0 <= k < h.melds@.len() implies 1 <= (#[trigger] h.melds@[k]).tiles@.len() <= 4 by {
                        if k < oh.melds@.len() {
                            assert(h.melds@[k] == oh.melds@[k]);
                        }
                    }
                }
            }
        }
        if is_kan {
            if let Some((rinshan, dora)) = kan_tiles {
                events.push(Event::DoraRevealed { tile: dora });
                events.push(Event::RinshanDrawn { seat: caller, tile: rinshan });
            }
            if let Some(kind) = self.check_abortive_after_kan() {
                return self.resolve_abortive_draw(kind, events);
            }
        }
        self.current_actor = caller;
        self.phase = HandPhase::Discard;
        Ok(events)
    }
}

} // verus!
