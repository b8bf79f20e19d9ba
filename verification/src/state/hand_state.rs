//! The state of a hand in progress: seats, rivers, wall, turn order and scoring flags.

use vstd::prelude::*;

use crate::error::Error;
use crate::hand::{Concealed, Hand, deal_counts_ok, hand_sizes_ok, hand_total};
use crate::rules::RulesConfig;
use crate::state::reaction::{ReactionKind, ReactionState};
use crate::tile::Tile;
use crate::wall::{DealResult, LIVE_WALL_AFTER_DEAL, WALL_SIZE, Wall};

verus! {

pub const SEAT_COUNT: usize = 4;

/// Phase of an in-progress hand.
#[derive(Debug, Clone, Copy, PartialEq, Eq, Structural)]
pub enum HandPhase {
    Draw,
    Discard,
    Reaction,
    Ended,
}

/// Why a hand ended.
#[derive(Debug, Clone, PartialEq, Eq)]
pub enum HandEndReason {
    Win { winners: Vec<usize> },
    ExhaustiveDraw,
    AbortiveDraw(crate::game::AbortiveDrawKind),
}

impl HandEndReason {
    /// An identical, independent end reason.
    pub fn duplicate(&self) -> (e: HandEndReason)
        ensures
            match (e, *self) {
                (HandEndReason::Win { winners: x }, HandEndReason::Win { winners: y }) => x@ == y@,
                (HandEndReason::ExhaustiveDraw, HandEndReason::ExhaustiveDraw) => true,
                (HandEndReason::AbortiveDraw(x), HandEndReason::AbortiveDraw(y)) => x == y,
                _ => false,
            },
    {
        match self {
            HandEndReason::Win { winners } => {
                let mut v: Vec<usize> = Vec::new();
                let mut i: usize = 0;
                while i < winners.len()
                    invariant
                        i <= winners@.len(),
                        v@ == winners@.take(i as int),
                    decreases winners@.len() - i,
                {
                    v.push(winners[i]);
                    i = i + 1;
                    assert(v@ =~= winners@.take(i as int));
                }
                assert(winners@.take(winners@.len() as int) =~= winners@);
                HandEndReason::Win { winners: v }
            },
            HandEndReason::ExhaustiveDraw => HandEndReason::ExhaustiveDraw,
            HandEndReason::AbortiveDraw(k) => HandEndReason::AbortiveDraw(*k),
        }
    }

    /// The first winner of a won hand.
    pub fn primary_winner(&self) -> (w: Option<usize>)
        ensures
            w == (match self {
                HandEndReason::Win { winners } => if winners@.len() > 0 {
                    Some(winners@[0])
                } else {
                    None
                },
                _ => None,
            }),
    {
        match self {
            HandEndReason::Win { winners } => {
                if winners.len() > 0 {
                    Some(winners[0])
                } else {
                    None
                }
            },
            _ => None,
        }
    }
}

/// `a` and `b` record the same end of hand.
pub open spec fn same_end_reason(a: Option<HandEndReason>, b: Option<HandEndReason>) -> bool {
    match (a, b) {
        (None, None) => true,
        (Some(HandEndReason::Win { winners: x }), Some(HandEndReason::Win { winners: y })) => x@ == y@,
        (Some(HandEndReason::ExhaustiveDraw), Some(HandEndReason::ExhaustiveDraw)) => true,
        (Some(HandEndReason::AbortiveDraw(x)), Some(HandEndReason::AbortiveDraw(y))) => x == y,
        _ => false,
    }
}

/// A discard on the table that others may claim.
#[derive(Debug, Clone, Copy, PartialEq, Eq, Structural)]
pub struct PendingCall {
    pub discarder: usize,
    pub tile: Tile,
}

/// In-progress hand: seats, rivers, wall, and turn order.
pub struct HandState {
    pub dealer: usize,
    pub current_actor: usize,
    pub phase: HandPhase,
    /// One hand per seat.
    pub hands: Vec<Hand>,
    /// One river per seat, oldest discard first.
    pub discards: Vec<Vec<Tile>>,
    pub wall: Wall,
    pub reaction: Option<ReactionState>,
    /// Most recent table discard (stays visible until called or replaced).
    pub last_discard: Option<(usize, Tile)>,
    pub config: RulesConfig,
    pub scores: [i32; 4],
    pub riichi: [bool; 4],
    pub table_riichi_sticks: u8,
    pub honba: u8,
    pub last_draw: Option<Tile>,
    pub first_discards: [Option<Tile>; 4],
    pub is_dealer_first_turn: bool,
    pub temporary_furiten: [bool; 4],
    pub riichi_furiten: [bool; 4],
    /// Ippatsu still possible after riichi (voided by any call or kan).
    pub ippatsu_live: [bool; 4],
    pub double_riichi: [bool; 4],
    /// Any chi/pon/open-kan call has resolved this hand (blocks double riichi).
    pub calls_made: bool,
    /// True when `last_draw` came from a rinshan replacement tile.
    pub is_rinshan_draw: bool,
    /// Live-wall draws taken during play (excludes initial deal and rinshan).
    pub live_draws: [u8; 4],
    pub end_reason: Option<HandEndReason>,
}

/// A kakan window sits in the reaction phase and names a meld of the declaring seat.
pub open spec fn kakan_window_ok(s: HandState, r: ReactionState) -> bool {
    &&& s.phase == HandPhase::Reaction
    &&& r.kakan_meld_index is Some
    &&& r.kakan_meld_index->0 < s.hands@[r.discarder as int].melds@.len()
}

/// Tiles in a list of rivers.
pub open spec fn river_total(ds: Seq<Vec<Tile>>) -> nat
    decreases ds.len(),
{
    if ds.len() == 0 {
        0
    } else {
        river_total(ds.drop_last()) + ds.last()@.len()
    }
}

/// Tiles in a list of hands.
pub open spec fn hands_total(hs: Seq<Hand>) -> nat
    decreases hs.len(),
{
    if hs.len() == 0 {
        0
    } else {
        hands_total(hs.drop_last()) + hand_total(hs.last())
    }
}

impl HandState {
    /// The shape every state keeps: four seats, seat numbers in range, a sound wall.
    pub open spec fn wf(&self) -> bool {
        &&& self.hands@.len() == 4
        &&& self.discards@.len() == 4
        &&& self.dealer < 4
        &&& self.current_actor < 4
        &&& self.wall.wf()
        &&& (self.reaction matches Some(r) ==> r.discarder < 4)
        &&& (self.last_discard matches Some((s, _)) ==> s < 4)
        &&& forall|i: int| 0 <= i < 4 ==> hand_sizes_ok(#[trigger] self.hands@[i])
        &&& forall|i: int| 0 <= i < 4 ==> (#[trigger] self.double_riichi@[i] ==> self.riichi@[i])
        &&& (self.reaction matches Some(r) ==> (r.kind == ReactionKind::Kakan ==> kakan_window_ok(*self, r)))
    }

    /// Tiles the state accounts for: hands, rivers, the live wall, the dead-wall tiles not
    /// yet drawn as rinshan tiles, and a tile held by an open kakan window.
    pub open spec fn accounted(&self) -> nat {
        hands_total(self.hands@) + river_total(self.discards@) + self.wall.live_seq().len()
            + self.wall.dead_left() + if self.reaction matches Some(r) && r.kind
            == ReactionKind::Kakan {
            1nat
        } else {
            0nat
        }
    }

    pub fn from_deal(wall: Wall, deal: DealResult, config: RulesConfig) -> (s: HandState)
        requires
            wall.wf(),
            deal.dealer < 4,
            forall|i: int| 0 <= i < 4 ==> hand_sizes_ok(#[trigger] deal.hands@[i]),
        ensures
            s.wf(),
            s.dealer == deal.dealer,
            s.current_actor == deal.dealer,
            s.phase == HandPhase::Discard,
            forall|i: int| 0 <= i < 4 ==> (#[trigger] s.hands@[i]).concealed@ == deal.hands@[i].concealed@,
            forall|i: int| 0 <= i < 4 ==> (#[trigger] s.discards@[i])@.len() == 0,
            s.scores@ == seq![config.starting_points, config.starting_points, config.starting_points, config.starting_points],
            s.honba == 0,
            s.table_riichi_sticks == 0,
            s.config == config,
            forall|i: int| 0 <= i < 4 ==> (#[trigger] s.hands@[i]).melds@.len() == deal.hands@[i].melds@.len(),
            s.reaction is None,
            s.end_reason is None,
            s.wall == wall,
            s.accounted() == hands_total(deal.hands@) + wall.live_seq().len() + wall.dead_left(),
            deal_counts_ok(deal.hands@, deal.dealer as int) && wall.live_seq().len() == LIVE_WALL_AFTER_DEAL
                && wall.rinshans() == 0 ==> s.accounted() == WALL_SIZE,
    {
        let starting = config.starting_points;
        let s = HandState::from_deal_with_carry(wall, deal, config, [starting, starting, starting, starting], 0, 0);
        proof {
            reveal_with_fuel(hands_total, 5);
            reveal_with_fuel(river_total, 5);
            let a = s.hands@;
            let b = deal.hands@;
            assert(a.drop_last().drop_last().drop_last().drop_last() =~= Seq::<Hand>::empty());
            assert(b.drop_last().drop_last().drop_last().drop_last() =~= Seq::<Hand>::empty());
            assert(hand_total(a[0]) == hand_total(b[0]));
            assert(hand_total(a[1]) == hand_total(b[1]));
            assert(hand_total(a[2]) == hand_total(b[2]));
            assert(hand_total(a[3]) == hand_total(b[3]));
            assert(hands_total(a) == hands_total(b));
            let d = s.discards@;
            assert(d.drop_last().drop_last().drop_last().drop_last() =~= Seq::<Vec<Tile>>::empty());
            assert(river_total(d) == 0);
            if deal_counts_ok(b, deal.dealer as int) {
                assert(hand_total(b[0]) == if 0 == deal.dealer { 14nat } else { 13nat });
                assert(hand_total(b[1]) == if 1 == deal.dealer { 14nat } else { 13nat });
                assert(hand_total(b[2]) == if 2 == deal.dealer { 14nat } else { 13nat });
                assert(hand_total(b[3]) == if 3 == deal.dealer { 14nat } else { 13nat });
                assert(hands_total(b) == 53);
            }
        }
        s
    }

    /// A fresh hand carrying scores, honba and riichi sticks over from the last one.
    pub fn from_deal_with_carry(
        wall: Wall,
        deal: DealResult,
        config: RulesConfig,
        scores: [i32; 4],
        honba: u8,
        table_riichi_sticks: u8,
    ) -> (s: HandState)
        requires
            wall.wf(),
            deal.dealer < 4,
            forall|i: int| 0 <= i < 4 ==> hand_sizes_ok(#[trigger] deal.hands@[i]),
        ensures
            s.wf(),
            s.dealer == deal.dealer,
            s.current_actor == deal.dealer,
            s.phase == HandPhase::Discard,
            forall|i: int| 0 <= i < 4 ==> (#[trigger] s.hands@[i]).concealed@ == deal.hands@[i].concealed@
                && s.hands@[i].melds@.len() == deal.hands@[i].melds@.len(),
            forall|i: int| 0 <= i < 4 ==> hand_total(#[trigger] s.hands@[i]) == hand_total(deal.hands@[i]),
            forall|i: int| 0 <= i < 4 ==> (#[trigger] s.discards@[i])@.len() == 0,
            s.wall == wall,
            s.reaction is None,
            s.last_discard is None,
            s.last_draw is None,
            s.scores == scores,
            s.honba == honba,
            s.table_riichi_sticks == table_riichi_sticks,
            s.config == config,
            s.riichi@ == seq![false, false, false, false],
            s.double_riichi@ == seq![false, false, false, false],
            s.ippatsu_live@ == seq![false, false, false, false],
            s.temporary_furiten@ == seq![false, false, false, false],
            s.riichi_furiten@ == seq![false, false, false, false],
            s.live_draws@ == seq![0u8, 0u8, 0u8, 0u8],
            s.first_discards@ == seq![None::<Tile>, None, None, None],
            s.is_dealer_first_turn,
            !s.calls_made,
            !s.is_rinshan_draw,
            s.end_reason is None,
    {
        let mut hands: Vec<Hand> = Vec::new();
        hands.push(deal.hands[0].duplicate());
        hands.push(deal.hands[1].duplicate());
        hands.push(deal.hands[2].duplicate());
        hands.push(deal.hands[3].duplicate());
        let mut discards: Vec<Vec<Tile>> = Vec::new();
        discards.push(Vec::new());
        discards.push(Vec::new());
        discards.push(Vec::new());
        discards.push(Vec::new());
        let s = HandState {
            dealer: deal.dealer,
            current_actor: deal.dealer,
            phase: HandPhase::Discard,
            hands,
            discards,
            wall,
            reaction: None,
            last_discard: None,
            config,
            scores,
            riichi: [false, false, false, false],
            table_riichi_sticks,
            honba,
            last_draw: None,
            first_discards: [None, None, None, None],
            is_dealer_first_turn: true,
            temporary_furiten: [false, false, false, false],
            riichi_furiten: [false, false, false, false],
            ippatsu_live: [false, false, false, false],
            double_riichi: [false, false, false, false],
            calls_made: false,
            is_rinshan_draw: false,
            live_draws: [0, 0, 0, 0],
            end_reason: None,
        };
        proof {
            assert forall|i: int| 0 <= i < 4 implies hand_sizes_ok(#[trigger] s.hands@[i]) by {
                assert(hand_sizes_ok(deal.hands@[i]));
                assert forall|k: int| 0 <= k < s.hands@[i].melds@.len() implies 1 <= (#[trigger] s.hands@[i].melds@[k]).tiles@.len() <= 4 by {
                    assert(s.hands@[i].melds@[k].tiles@ == deal.hands@[i].melds@[k].tiles@);
                }
            }
            assert(s.riichi@ =~= seq![false, false, false, false]);
            assert(s.double_riichi@ =~= seq![false, false, false, false]);
            assert(s.ippatsu_live@ =~= seq![false, false, false, false]);
            assert(s.temporary_furiten@ =~= seq![false, false, false, false]);
            assert(s.riichi_furiten@ =~= seq![false, false, false, false]);
            assert(s.live_draws@ =~= seq![0u8, 0u8, 0u8, 0u8]);
            assert(s.first_discards@ =~= seq![None::<Tile>, None, None, None]);
        }
        s
    }

    /// Why the hand ended, once it has.
    pub fn end_reason(&self) -> (r: Option<HandEndReason>)
        ensures
            same_end_reason(r, self.end_reason),
    {
        match &self.end_reason {
            Some(e) => Some(e.duplicate()),
            None => None,
        }
    }

    pub fn dealer(&self) -> (d: usize)
        ensures
            d == self.dealer,
    {
        self.dealer
    }

    pub fn current_actor(&self) -> (s: usize)
        ensures
            s == self.current_actor,
    {
        self.current_actor
    }

    pub fn phase(&self) -> (p: HandPhase)
        ensures
            p == self.phase,
    {
        self.phase
    }

    pub fn hand(&self, seat: usize) -> (h: &Hand)
        requires
            self.wf(),
            seat < 4,
        ensures
            *h == self.hands@[seat as int],
    {
        &self.hands[seat]
    }

    pub fn discards(&self, seat: usize) -> (d: &[Tile])
        requires
            self.wf(),
            seat < 4,
        ensures
            d@ == self.discards@[seat as int]@,
    {
        self.discards[seat].as_slice()
    }

    pub fn wall(&self) -> (w: &Wall)
        ensures
            *w == self.wall,
    {
        &self.wall
    }

    /// Mutable access to the wall; everything else stays as it was.
    pub fn wall_mut(&mut self) -> (w: &mut Wall)
        ensures
            *w == old(self).wall,
            *final(self) == (HandState { wall: *final(w), ..*old(self) }),
    {
        &mut self.wall
    }

    pub fn first_discard(&self, seat: usize) -> (t: Option<Tile>)
        requires
            seat < 4,
        ensures
            t == self.first_discards@[seat as int],
    {
        self.first_discards[seat]
    }

    pub fn is_ended(&self) -> (b: bool)
        ensures
            b == (self.phase == HandPhase::Ended),
    {
        self.phase == HandPhase::Ended
    }

    /// The discard others are answering, during a reaction window.
    pub fn pending_call(&self) -> (p: Option<PendingCall>)
        ensures
            p == (match self.reaction {
                Some(r) => Some(PendingCall { discarder: r.discarder, tile: r.tile }),
                None => None,
            }),
    {
        match self.reaction {
            Some(r) => Some(PendingCall { discarder: r.discarder, tile: r.tile }),
            None => None,
        }
    }

    /// The latest discard still lying on the table.
    pub fn last_discard(&self) -> (p: Option<PendingCall>)
        ensures
            p == (match self.last_discard {
                Some((d, t)) => Some(PendingCall { discarder: d, tile: t }),
                None => None,
            }),
    {
        match self.last_discard {
            Some((d, t)) => Some(PendingCall { discarder: d, tile: t }),
            None => None,
        }
    }

    /// Tile just drawn (or rinshan) for the current actor during discard phase.
    pub fn last_drawn_tile(&self) -> (t: Option<Tile>)
        ensures
            t == self.last_draw,
    {
        self.last_draw
    }

    pub fn config(&self) -> (c: &RulesConfig)
        ensures
            *c == self.config,
    {
        &self.config
    }

    pub fn scores(&self) -> (s: &[i32; 4])
        ensures
            *s == self.scores,
    {
        &self.scores
    }

    pub fn honba(&self) -> (h: u8)
        ensures
            h == self.honba,
    {
        self.honba
    }

    pub fn table_riichi_sticks(&self) -> (n: u8)
        ensures
            n == self.table_riichi_sticks,
    {
        self.table_riichi_sticks
    }

    pub fn is_riichi(&self, seat: usize) -> (b: bool)
        requires
            seat < 4,
        ensures
            b == self.riichi@[seat as int],
    {
        self.riichi[seat]
    }

    pub fn is_double_riichi(&self, seat: usize) -> (b: bool)
        requires
            seat < 4,
        ensures
            b == self.double_riichi@[seat as int],
            self.wf() && b ==> self.riichi@[seat as int],
    {
        self.double_riichi[seat]
    }

    pub fn ippatsu_live(&self, seat: usize) -> (b: bool)
        requires
            seat < 4,
        ensures
            b == self.ippatsu_live@[seat as int],
    {
        self.ippatsu_live[seat]
    }

    /// Replaces the concealed tiles of `seat`.
    pub fn set_concealed(&mut self, seat: usize, tiles: Vec<Tile>)
        requires
            old(self).wf(),
            seat < 4,
            tiles@.len() <= 136,
        ensures
            final(self).wf(),
            final(self).hands@[seat as int].concealed@ == tiles@,
            final(self).hands@[seat as int].melds@ == old(self).hands@[seat as int].melds@,
            forall|i: int| 0 <= i < 4 && i != seat ==> (#[trigger] final(self).hands@[i]) == old(self).hands@[i],
            final(self).hands@.len() == old(self).hands@.len(),
            *final(self) == (HandState { hands: final(self).hands, ..*old(self) }),
    {
        self.hands[seat].set_concealed(Concealed::from_tiles(tiles));
    }

    /// Replaces the hand of `seat`.
    pub fn set_hand(&mut self, seat: usize, hand: Hand)
        requires
            old(self).wf(),
            seat < 4,
            hand_sizes_ok(hand),
            (old(self).reaction matches Some(r) && r.kind == ReactionKind::Kakan && r.discarder == seat)
                ==> old(self).reaction->0.kakan_meld_index->0 < hand.melds@.len(),
        ensures
            final(self).wf(),
            final(self).hands@ == old(self).hands@.update(seat as int, hand),
    {
        self.hands.set(seat, hand);
    }

    /// Adds `tile` to the river of `seat`.
    pub fn push_discard_for_test(&mut self, seat: usize, tile: Tile)
        requires
            old(self).wf(),
            seat < 4,
        ensures
            final(self).wf(),
            final(self).discards@[seat as int]@ == old(self).discards@[seat as int]@.push(tile),
            forall|i: int| 0 <= i < 4 && i != seat ==> (#[trigger] final(self).discards@[i]) == old(self).discards@[i],
    {
        self.discards[seat].push(tile);
    }

    pub fn set_honba_for_test(&mut self, honba: u8)
        ensures
            *final(self) == (HandState { honba, ..*old(self) }),
    {
        self.honba = honba;
    }

    pub fn set_table_riichi_sticks_for_test(&mut self, sticks: u8)
        ensures
            *final(self) == (HandState { table_riichi_sticks: sticks, ..*old(self) }),
    {
        self.table_riichi_sticks = sticks;
    }
}

} // verus!
