//! What a rules profile is told about a win: the hand state, the winner, the winning tile
//! and the timing of the win.

use vstd::prelude::*;

use crate::hand::Hand;
use crate::scoring::WinType;
use crate::state::HandState;
use crate::tile::Tile;
use crate::wall::Wall;

verus! {

/// Extra flags for win-timing yaku that are not inferable from hand tiles alone.
#[derive(Debug, Clone, Copy, PartialEq, Eq, Structural)]
pub struct WinTimingFlags {
    pub is_chankan: bool,
}

impl Default for WinTimingFlags {
    /// No timing flag set.
    fn default() -> (f: WinTimingFlags)
        ensures
            !f.is_chankan,
    {
        WinTimingFlags { is_chankan: false }
    }
}

/// Context for evaluating a win under a rules profile.
pub struct WinContext<'a> {
    pub state: &'a HandState,
    /// The winner's hand (the state's, or a hypothetical one for planning).
    pub hand: &'a Hand,
    pub winner: usize,
    pub win_type: WinType,
    pub win_tile: Tile,
    /// Tsumo on the last live-wall tile (haitei raoyue).
    pub is_haitei: bool,
    /// Ron on the last discard with an empty live wall (houtei raoyui).
    pub is_houtei: bool,
    /// Tsumo on a rinshan replacement tile after kan.
    pub is_rinshan: bool,
    /// Ron on a tile added during kakan.
    pub is_chankan: bool,
}

pub open spec fn haitei_win(s: HandState, win_type: WinType) -> bool {
    win_type is Tsumo && s.wall.live_seq().len() == 0 && !s.is_rinshan_draw
}

pub open spec fn houtei_win(s: HandState, win_type: WinType) -> bool {
    win_type is Ron && s.wall.live_seq().len() == 0
}

pub open spec fn rinshan_win(s: HandState, win_type: WinType) -> bool {
    win_type is Tsumo && s.is_rinshan_draw
}

impl<'a> WinContext<'a> {
    /// A context can be evaluated: a sound state and a seat in range.
    pub open spec fn wf(&self) -> bool {
        self.state.wf() && self.winner < 4
    }

    /// The timing flags as the state and the win type set them.
    pub open spec fn timing_from_state(&self) -> bool {
        &&& self.is_haitei == haitei_win(*self.state, self.win_type)
        &&& self.is_houtei == houtei_win(*self.state, self.win_type)
        &&& self.is_rinshan == rinshan_win(*self.state, self.win_type)
    }

    pub fn new(
        state: &'a HandState,
        winner: usize,
        win_type: WinType,
        win_tile: Tile,
        timing: WinTimingFlags,
    ) -> (ctx: WinContext<'a>)
        requires
            state.wf(),
            winner < 4,
        ensures
            ctx.wf(),
            ctx.state == state,
            *ctx.hand == state.hands@[winner as int],
            ctx.winner == winner,
            ctx.win_type == win_type,
            ctx.win_tile == win_tile,
            ctx.timing_from_state(),
            ctx.is_chankan == timing.is_chankan,
    {
        WinContext::with_hand(state, &state.hands[winner], winner, win_type, win_tile, timing)
    }

    /// A context for `hand` held by `winner`, in the situation of `state`.
    pub fn with_hand(
        state: &'a HandState,
        hand: &'a Hand,
        winner: usize,
        win_type: WinType,
        win_tile: Tile,
        timing: WinTimingFlags,
    ) -> (ctx: WinContext<'a>)
        requires
            state.wf(),
            winner < 4,
        ensures
            ctx.wf(),
            ctx.state == state,
            ctx.hand == hand,
            ctx.winner == winner,
            ctx.win_type == win_type,
            ctx.win_tile == win_tile,
            ctx.timing_from_state(),
            ctx.is_chankan == timing.is_chankan,
    {
        let live_empty = state.wall.live_remaining() == 0;
        let tsumo = matches!(win_type, WinType::Tsumo);
        WinContext {
            state,
            hand,
            winner,
            win_type,
            win_tile,
            is_haitei: tsumo && live_empty && !state.is_rinshan_draw,
            is_houtei: !tsumo && live_empty,
            is_rinshan: tsumo && state.is_rinshan_draw,
            is_chankan: timing.is_chankan,
        }
    }

    pub fn hand(&self) -> (h: &Hand)
        ensures
            h == self.hand,
    {
        self.hand
    }

    /// No melds laid open.
    pub fn is_menzen(&self) -> (b: bool)
        ensures
            b == (self.hand.melds@.len() == 0),
    {
        self.hand.melds.len() == 0
    }

    pub fn is_riichi(&self) -> (b: bool)
        requires
            self.wf(),
        ensures
            b == self.state.riichi@[self.winner as int],
    {
        self.state.riichi[self.winner]
    }

    /// Dealer's tsumo on the first draw, before anyone discarded.
    pub fn is_tenhou(&self) -> (b: bool)
        requires
            self.wf(),
        ensures
            b == tenhou(*self.state, self.winner as int, self.win_type),
    {
        if self.winner != self.state.dealer || !self.state.is_dealer_first_turn || !matches!(
            self.win_type,
            WinType::Tsumo
        ) {
            return false;
        }
        let mut seat: usize = 0;
        while seat < 4
            invariant
                seat <= 4,
                self.state.wf(),
                forall|s: int| 0 <= s < seat ==> (#[trigger] self.state.discards@[s])@.len() == 0,
            decreases 4 - seat,
        {
            if self.state.discards[seat].len() != 0 {
                return false;
            }
            seat = seat + 1;
        }
        true
    }

    /// A non-dealer's tsumo on their first live draw.
    pub fn is_chiihou(&self) -> (b: bool)
        requires
            self.wf(),
        ensures
            b == chiihou(*self.state, self.winner as int, self.win_type),
    {
        self.winner != self.state.dealer && matches!(self.win_type, WinType::Tsumo)
            && self.state.live_draws[self.winner] == 1
    }

    /// Ron by the seat after the dealer on the dealer's first discard, before it drew and
    /// before any call.
    pub fn is_renhou(&self) -> (b: bool)
        requires
            self.wf(),
        ensures
            b == renhou(*self.state, self.winner as int, self.win_type),
    {
        match self.win_type {
            WinType::Ron { from } => {
                self.winner == (self.state.dealer + 1) % 4 && from == self.state.dealer
                    && self.state.live_draws[self.winner] == 0 && !self.state.calls_made
                    && self.state.first_discards[self.state.dealer].is_some()
            },
            WinType::Tsumo => false,
        }
    }
}

pub open spec fn tenhou(s: HandState, winner: int, win_type: WinType) -> bool {
    &&& winner == s.dealer
    &&& s.is_dealer_first_turn
    &&& win_type is Tsumo
    &&& forall|seat: int| 0 <= seat < 4 ==> (#[trigger] s.discards@[seat])@.len() == 0
}

pub open spec fn chiihou(s: HandState, winner: int, win_type: WinType) -> bool {
    winner != s.dealer && win_type is Tsumo && s.live_draws@[winner] == 1
}

pub open spec fn renhou(s: HandState, winner: int, win_type: WinType) -> bool {
    match win_type {
        WinType::Ron { from } => {
            &&& winner == (s.dealer + 1) % 4
            &&& from == s.dealer
            &&& s.live_draws@[winner] == 0
            &&& !s.calls_made
            &&& s.first_discards@[s.dealer as int] is Some
        },
        WinType::Tsumo => false,
    }
}

} // verus!
