//! Abortive draws of the standard profile.

use vstd::prelude::*;

use crate::game::{AbortiveDrawKind, AbortiveTrigger};
use crate::rules::RulesConfig;
use crate::state::HandState;
use crate::tile::{Dragon, Tile, TileKind, Wind};

use super::win::has_kind;

verus! {

broadcast use vstd::seq_lib::group_to_multiset_ensures;

/// The thirteen terminal and honor faces.
pub open spec fn orphan_kind(i: int) -> TileKind {
    if i == 0 {
        TileKind::Man(1)
    } else if i == 1 {
        TileKind::Man(9)
    } else if i == 2 {
        TileKind::Pin(1)
    } else if i == 3 {
        TileKind::Pin(9)
    } else if i == 4 {
        TileKind::Sou(1)
    } else if i == 5 {
        TileKind::Sou(9)
    } else if i == 6 {
        TileKind::Wind(Wind::East)
    } else if i == 7 {
        TileKind::Wind(Wind::South)
    } else if i == 8 {
        TileKind::Wind(Wind::West)
    } else if i == 9 {
        TileKind::Wind(Wind::North)
    } else if i == 10 {
        TileKind::Dragon(Dragon::White)
    } else if i == 11 {
        TileKind::Dragon(Dragon::Green)
    } else {
        TileKind::Dragon(Dragon::Red)
    }
}

pub open spec fn holds_kind(s: Seq<Tile>, k: TileKind) -> bool {
    exists|t: Tile| #[trigger] s.to_multiset().count(t) > 0 && t.kind == k
}

/// Distinct terminal and honor faces among the first `n` of the thirteen held in `s`.
pub open spec fn orphan_faces(s: Seq<Tile>, n: int) -> nat
    decreases n,
{
    if n <= 0 {
        0
    } else {
        orphan_faces(s, n - 1) + if holds_kind(s, orphan_kind(n - 1)) { 1nat } else { 0nat }
    }
}

pub open spec fn nine_terminals_spec(state: HandState) -> bool {
    &&& state.current_actor == state.dealer
    &&& state.hands@[state.dealer as int].melds@.len() == 0
    &&& orphan_faces(state.hands@[state.dealer as int].concealed@, 13) >= 9
}

pub open spec fn four_winds_spec(state: HandState, tile: Tile) -> bool {
    &&& tile.kind is Wind
    &&& forall|seat: int|
        0 <= seat < 4 ==> ((#[trigger] state.first_discards@[seat]) matches Some(t) && t.kind == tile.kind)
}

pub open spec fn four_riichis_spec(state: HandState) -> bool {
    forall|seat: int| 0 <= seat < 4 ==> #[trigger] state.riichi@[seat]
}

/// The abortive draw the trigger causes, if the rules enable it and its condition holds.
pub open spec fn abortive_of(state: HandState, config: RulesConfig, trigger: AbortiveTrigger) -> Option<AbortiveDrawKind> {
    match trigger {
        AbortiveTrigger::DealerFirstTurn => if config.abortive_nine_terminals && nine_terminals_spec(state) {
            Some(AbortiveDrawKind::NineTerminals)
        } else {
            None
        },
        AbortiveTrigger::FirstDiscard { seat, tile } => if config.abortive_four_winds && four_winds_spec(
            state,
            tile,
        ) {
            Some(AbortiveDrawKind::FourWinds)
        } else {
            None
        },
        AbortiveTrigger::KanDeclared => if config.abortive_four_kongs && state.wall.kans() >= 4 {
            Some(AbortiveDrawKind::FourKongs)
        } else {
            None
        },
        AbortiveTrigger::RiichiDeclared => if config.abortive_four_riichis && four_riichis_spec(state) {
            Some(AbortiveDrawKind::FourRiichis)
        } else {
            None
        },
    }
}

/// A four-winds abort is reported only when all four first discards show one wind, the face
/// of the trigger tile; first discards of two different faces never abort the hand.
pub proof fn lemma_four_winds_one_face(state: HandState, config: RulesConfig, seat: usize, tile: Tile)
    ensures
        abortive_of(state, config, (AbortiveTrigger::FirstDiscard { seat, tile })) == Some(
            AbortiveDrawKind::FourWinds,
        ) ==> (tile.kind is Wind && forall|i: int|
            0 <= i < 4 ==> (#[trigger] state.first_discards@[i] matches Some(t) && t.kind == tile.kind)),
        (exists|i: int, j: int|
            #![trigger state.first_discards@[i], state.first_discards@[j]]
            0 <= i < 4 && 0 <= j < 4 && (state.first_discards@[i] matches Some(a) && (
            state.first_discards@[j] matches Some(b) && a.kind != b.kind))) ==> abortive_of(
            state,
            config,
            (AbortiveTrigger::FirstDiscard { seat, tile }),
        ) is None,
{
}

fn orphan_kind_exec(i: usize) -> (k: TileKind)
    requires
        i < 13,
    ensures
        k == orphan_kind(i as int),
{
    if i == 0 {
        TileKind::Man(1)
    } else if i == 1 {
        TileKind::Man(9)
    } else if i == 2 {
        TileKind::Pin(1)
    } else if i == 3 {
        TileKind::Pin(9)
    } else if i == 4 {
        TileKind::Sou(1)
    } else if i == 5 {
        TileKind::Sou(9)
    } else if i == 6 {
        TileKind::Wind(Wind::East)
    } else if i == 7 {
        TileKind::Wind(Wind::South)
    } else if i == 8 {
        TileKind::Wind(Wind::West)
    } else if i == 9 {
        TileKind::Wind(Wind::North)
    } else if i == 10 {
        TileKind::Dragon(Dragon::White)
    } else if i == 11 {
        TileKind::Dragon(Dragon::Green)
    } else {
        TileKind::Dragon(Dragon::Red)
    }
}

fn nine_terminals(state: &HandState) -> (b: bool)
    requires
        state.wf(),
    ensures
        b == nine_terminals_spec(*state),
{
    if state.current_actor != state.dealer {
        return false;
    }
    let hand = &state.hands[state.dealer];
    if hand.melds.len() != 0 {
        return false;
    }
    let tiles = hand.concealed.tiles.as_slice();
    let mut n: usize = 0;
    let mut i: usize = 0;
    while i < 13
        invariant
            i <= 13,
            n <= i,
            n == orphan_faces(tiles@, i as int),
        decreases 13 - i,
    {
        if has_kind(tiles, orphan_kind_exec(i)) {
            n = n + 1;
        }
        i = i + 1;
    }
    n >= 9
}

fn four_winds(state: &HandState, tile: Tile) -> (b: bool)
    ensures
        b == four_winds_spec(*state, tile),
{
    if !matches!(tile.kind, TileKind::Wind(_)) {
        return false;
    }
    let mut seat: usize = 0;
    while seat < 4
        invariant
            seat <= 4,
            tile.kind is Wind,
            forall|s: int| 0 <= s < seat ==> ((#[trigger] state.first_discards@[s]) matches Some(t) && t.kind == tile.kind),
        decreases 4 - seat,
    {
        match state.first_discards[seat] {
            Some(t) => {
                if !t.matches_identity(tile) {
                    return false;
                }
            },
            None => {
                return false;
            },
        }
        seat = seat + 1;
    }
    true
}

fn four_riichis(state: &HandState) -> (b: bool)
    ensures
        b == four_riichis_spec(*state),
{
    state.riichi[0] && state.riichi[1] && state.riichi[2] && state.riichi[3]
}

/// The abortive draw the trigger causes, if any.
pub fn detect_abortive(state: &HandState, config: &RulesConfig, trigger: AbortiveTrigger) -> (r: Option<AbortiveDrawKind>)
    requires
        state.wf(),
    ensures
        r == abortive_of(*state, *config, trigger),
{
    match trigger {
        AbortiveTrigger::DealerFirstTurn => {
            if config.abortive_nine_terminals && nine_terminals(state) {
                Some(AbortiveDrawKind::NineTerminals)
            } else {
                None
            }
        },
        AbortiveTrigger::FirstDiscard { seat, tile } => {
            if config.abortive_four_winds && four_winds(state, tile) {
                Some(AbortiveDrawKind::FourWinds)
            } else {
                None
            }
        },
        AbortiveTrigger::KanDeclared => {
            if config.abortive_four_kongs && state.wall.kan_count() >= 4 {
                Some(AbortiveDrawKind::FourKongs)
            } else {
                None
            }
        },
        AbortiveTrigger::RiichiDeclared => {
            if config.abortive_four_riichis && four_riichis(state) {
                Some(AbortiveDrawKind::FourRiichis)
            } else {
                None
            }
        },
    }
}

} // verus!
