//! Tile accounting and lossless snapshots of a hand in progress.

use vstd::prelude::*;

use crate::error::Error;
use crate::hand::{Hand, Meld, hand_sizes_ok, hand_total, lemma_meld_count_same, meld_tile_count};
use crate::rules::RulesConfig;
use crate::state::hand_state::{HandEndReason, HandPhase, HandState, hands_total, kakan_window_ok, river_total, same_end_reason};
use crate::state::reaction::{ReactionKind, ReactionState};
use crate::tile::Tile;
use crate::wall::{WALL_SIZE, Wall, WallSnapshot, kan_state_ok, partition_error, snapshot_error};

verus! {

/// Everything a recording needs to restore a hand in progress (the rules come separately).
pub struct HandSnapshot {
    pub dealer: usize,
    pub current_actor: usize,
    pub phase: HandPhase,
    pub hands: Vec<Hand>,
    pub discards: Vec<Vec<Tile>>,
    pub wall: WallSnapshot,
    pub reaction: Option<ReactionState>,
    pub last_discard: Option<(usize, Tile)>,
    pub scores: [i32; 4],
    pub riichi: [bool; 4],
    pub table_riichi_sticks: u8,
    pub honba: u8,
    pub last_draw: Option<Tile>,
    pub first_discards: [Option<Tile>; 4],
    pub is_dealer_first_turn: bool,
    pub temporary_furiten: [bool; 4],
    pub riichi_furiten: [bool; 4],
    pub ippatsu_live: [bool; 4],
    pub double_riichi: [bool; 4],
    pub calls_made: bool,
    pub is_rinshan_draw: bool,
    pub live_draws: [u8; 4],
    pub end_reason: Option<HandEndReason>,
}

impl HandSnapshot {
    /// Seats, hand sizes and a kakan window in range, as `HandState::wf` asks of a live state.
    pub open spec fn shape_ok(&self) -> bool {
        &&& self.hands@.len() == 4
        &&& self.discards@.len() == 4
        &&& self.dealer < 4
        &&& self.current_actor < 4
        &&& (self.reaction matches Some(r) ==> r.discarder < 4)
        &&& (self.last_discard matches Some((s, _)) ==> s < 4)
        &&& forall|i: int| 0 <= i < 4 ==> hand_sizes_ok(#[trigger] self.hands@[i])
        &&& forall|i: int| 0 <= i < 4 ==> (#[trigger] self.double_riichi@[i] ==> self.riichi@[i])
        &&& self.reaction matches Some(r) ==> (r.kind == ReactionKind::Kakan ==> {
            &&& self.phase == HandPhase::Reaction
            &&& r.kakan_meld_index is Some
            &&& r.kakan_meld_index->0 < self.hands@[r.discarder as int].melds@.len()
        })
    }

    /// Tiles the snapshot accounts for, counted as `HandState::accounted` counts them.
    pub open spec fn tile_total(&self) -> nat {
        hands_total(self.hands@) + river_total(self.discards@) + self.wall.live@.len()
            + (if self.wall.dead@.len() >= self.wall.rinshan_taken {
            (self.wall.dead@.len() - self.wall.rinshan_taken) as nat
        } else {
            0nat
        }) + if self.reaction matches Some(r) && r.kind
            == ReactionKind::Kakan {
            1nat
        } else {
            0nat
        }
    }
}

/// `snap` records `s`: every field but the rules, the hands and the end reason by content.
pub open spec fn records(snap: HandSnapshot, s: HandState) -> bool {
    &&& snap.dealer == s.dealer
    &&& snap.current_actor == s.current_actor
    &&& snap.phase == s.phase
    &&& snap.hands@.len() == s.hands@.len()
    &&& forall|i: int| 0 <= i < s.hands@.len() ==> same_hand(#[trigger] snap.hands@[i], s.hands@[i])
    &&& snap.discards@.len() == s.discards@.len()
    &&& forall|i: int| 0 <= i < s.discards@.len() ==> (#[trigger] snap.discards@[i])@ == s.discards@[i]@
    &&& snap.wall.live@ == s.wall.live_seq()
    &&& snap.wall.dead@ == s.wall.dead_seq()
    &&& snap.wall.kan_count == s.wall.kans()
    &&& snap.wall.rinshan_taken == s.wall.rinshans()
    &&& snap.reaction == s.reaction
    &&& snap.last_discard == s.last_discard
    &&& snap.scores == s.scores
    &&& snap.riichi == s.riichi
    &&& snap.table_riichi_sticks == s.table_riichi_sticks
    &&& snap.honba == s.honba
    &&& snap.last_draw == s.last_draw
    &&& snap.first_discards == s.first_discards
    &&& snap.is_dealer_first_turn == s.is_dealer_first_turn
    &&& snap.temporary_furiten == s.temporary_furiten
    &&& snap.riichi_furiten == s.riichi_furiten
    &&& snap.ippatsu_live == s.ippatsu_live
    &&& snap.double_riichi == s.double_riichi
    &&& snap.calls_made == s.calls_made
    &&& snap.is_rinshan_draw == s.is_rinshan_draw
    &&& snap.live_draws == s.live_draws
    &&& same_end_reason(snap.end_reason, s.end_reason)
}

/// `s` is the state `snap` restores to under `config`: every field as recorded.
pub open spec fn restored(s: HandState, snap: HandSnapshot, config: RulesConfig) -> bool {
    &&& s.config == config
    &&& s.dealer == snap.dealer
    &&& s.current_actor == snap.current_actor
    &&& s.phase == snap.phase
    &&& s.hands == snap.hands
    &&& s.discards == snap.discards
    &&& s.wall.live_seq() == snap.wall.live@
    &&& s.wall.dead_seq() == snap.wall.dead@
    &&& s.wall.kans() == snap.wall.kan_count
    &&& s.wall.rinshans() == snap.wall.rinshan_taken
    &&& s.reaction == snap.reaction
    &&& s.last_discard == snap.last_discard
    &&& s.scores == snap.scores
    &&& s.riichi == snap.riichi
    &&& s.table_riichi_sticks == snap.table_riichi_sticks
    &&& s.honba == snap.honba
    &&& s.last_draw == snap.last_draw
    &&& s.first_discards == snap.first_discards
    &&& s.is_dealer_first_turn == snap.is_dealer_first_turn
    &&& s.temporary_furiten == snap.temporary_furiten
    &&& s.riichi_furiten == snap.riichi_furiten
    &&& s.ippatsu_live == snap.ippatsu_live
    &&& s.double_riichi == snap.double_riichi
    &&& s.calls_made == snap.calls_made
    &&& s.is_rinshan_draw == snap.is_rinshan_draw
    &&& s.live_draws == snap.live_draws
    &&& s.end_reason == snap.end_reason
}

/// Hands with the same tiles and melds hold the same number of tiles and keep the same sizes.
proof fn lemma_same_hand_sizes(a: Hand, b: Hand)
    requires
        same_hand(a, b),
    ensures
        hand_total(a) == hand_total(b),
        hand_sizes_ok(a) == hand_sizes_ok(b),
{
    assert forall|i: int| 0 <= i < a.melds@.len() implies (#[trigger] a.melds@[i]).tiles@.len()
        == b.melds@[i].tiles@.len() by {
        assert(same_hand(a, b));
    }
    lemma_meld_count_same(a.melds@, b.melds@);
    if hand_sizes_ok(b) {
        assert forall|i: int| 0 <= i < a.melds@.len() implies 1 <= (#[trigger] a.melds@[i]).tiles@.len()
            <= 4 by {
            assert(1 <= b.melds@[i].tiles@.len() <= 4);
        }
    }
    if hand_sizes_ok(a) {
        assert forall|i: int| 0 <= i < b.melds@.len() implies 1 <= (#[trigger] b.melds@[i]).tiles@.len()
            <= 4 by {
            assert(1 <= a.melds@[i].tiles@.len() <= 4);
        }
    }
}

proof fn lemma_hands_total_same(a: Seq<Hand>, b: Seq<Hand>)
    requires
        a.len() == b.len(),
        forall|i: int| 0 <= i < a.len() ==> same_hand(#[trigger] a[i], b[i]),
    ensures
        hands_total(a) == hands_total(b),
    decreases a.len(),
{
    if a.len() > 0 {
        lemma_hands_total_same(a.drop_last(), b.drop_last());
        lemma_same_hand_sizes(a.last(), b.last());
    }
}

proof fn lemma_river_total_same(a: Seq<Vec<Tile>>, b: Seq<Vec<Tile>>)
    requires
        a.len() == b.len(),
        forall|i: int| 0 <= i < a.len() ==> (#[trigger] a[i])@ == b[i]@,
    ensures
        river_total(a) == river_total(b),
    decreases a.len(),
{
    if a.len() > 0 {
        lemma_river_total_same(a.drop_last(), b.drop_last());
        assert(a.last()@ == b.last()@);
    }
}

/// A snapshot of a well-formed state that accounts for all 136 tiles is restored without
/// error (the conditions under which `from_snapshot` succeeds), into a well-formed state.
pub proof fn lemma_snapshot_accepted(s: HandState, snap: HandSnapshot)
    requires
        s.wf(),
        s.accounted() == WALL_SIZE,
        records(snap, s),
    ensures
        snapshot_error(snap.wall) is None,
        snap.tile_total() == WALL_SIZE,
        snap.shape_ok(),
{
    lemma_hands_total_same(snap.hands@, s.hands@);
    lemma_river_total_same(snap.discards@, s.discards@);
    assert forall|i: int| 0 <= i < 4 implies hand_sizes_ok(#[trigger] snap.hands@[i]) by {
        lemma_same_hand_sizes(snap.hands@[i], s.hands@[i]);
    }
    if let Some(r) = snap.reaction {
        if r.kind == ReactionKind::Kakan {
            assert(same_hand(snap.hands@[r.discarder as int], s.hands@[r.discarder as int]));
        }
    }
}

/// Restoring the snapshot of a well-formed state that accounts for all 136 tiles gives back
/// the state: the same hands and end reason by content, every other field equal.
pub proof fn lemma_snapshot_round_trip(s: HandState, snap: HandSnapshot, t: HandState)
    requires
        s.wf(),
        s.accounted() == WALL_SIZE,
        records(snap, s),
        restored(t, snap, s.config),
    ensures
        t.config == s.config,
        t.dealer == s.dealer,
        t.current_actor == s.current_actor,
        t.phase == s.phase,
        t.hands@.len() == s.hands@.len(),
        forall|i: int| 0 <= i < s.hands@.len() ==> same_hand(#[trigger] t.hands@[i], s.hands@[i]),
        t.discards@.len() == s.discards@.len(),
        forall|i: int| 0 <= i < s.discards@.len() ==> (#[trigger] t.discards@[i])@ == s.discards@[i]@,
        t.wall.live_seq() == s.wall.live_seq(),
        t.wall.dead_seq() == s.wall.dead_seq(),
        t.wall.kans() == s.wall.kans(),
        t.wall.rinshans() == s.wall.rinshans(),
        t.reaction == s.reaction,
        t.last_discard == s.last_discard,
        t.scores == s.scores,
        t.riichi == s.riichi,
        t.table_riichi_sticks == s.table_riichi_sticks,
        t.honba == s.honba,
        t.last_draw == s.last_draw,
        t.first_discards == s.first_discards,
        t.is_dealer_first_turn == s.is_dealer_first_turn,
        t.temporary_furiten == s.temporary_furiten,
        t.riichi_furiten == s.riichi_furiten,
        t.ippatsu_live == s.ippatsu_live,
        t.double_riichi == s.double_riichi,
        t.calls_made == s.calls_made,
        t.is_rinshan_draw == s.is_rinshan_draw,
        t.live_draws == s.live_draws,
        same_end_reason(t.end_reason, s.end_reason),
{
    lemma_snapshot_accepted(s, snap);
}

/// `a` holds the same tiles and melds as `b`.
pub open spec fn same_hand(a: Hand, b: Hand) -> bool {
    &&& a.concealed@ == b.concealed@
    &&& a.melds@.len() == b.melds@.len()
    &&& forall|i: int|
        0 <= i < b.melds@.len() ==> (#[trigger] a.melds@[i]).kind == b.melds@[i].kind && a.melds@[i].tiles@
            == b.melds@[i].tiles@ && a.melds@[i].called == b.melds@[i].called
}

/// Whether a hand has at most 136 concealed tiles and four melds of one to four tiles.
fn hand_shape_in_range(h: &Hand) -> (b: bool)
    ensures
        b == hand_sizes_ok(*h),
{
    if h.concealed.len() > 136 || h.melds.len() > 4 {
        return false;
    }
    let mut i: usize = 0;
    while i < h.melds.len()
        invariant
            i <= h.melds@.len(),
            forall|k: int| 0 <= k < i ==> 1 <= (#[trigger] h.melds@[k]).tiles@.len() <= 4,
        decreases h.melds@.len() - i,
    {
        let n = h.melds[i].tiles.len();
        if n < 1 || n > 4 {
            return false;
        }
        i = i + 1;
    }
    true
}

/// `n` capped at the largest `usize`.
pub open spec fn capped(n: nat) -> usize {
    if n > usize::MAX {
        usize::MAX
    } else {
        n as usize
    }
}

/// Tiles of `h`, counted without overflow.
fn hand_tiles_capped(h: &Hand) -> (n: usize)
    ensures
        n == capped(hand_total(*h)),
{
    let mut total: usize = h.concealed.len();
    let mut i: usize = 0;
    while i < h.melds.len()
        invariant
            i <= h.melds@.len(),
            total == capped(h.concealed@.len() + meld_tile_count(h.melds@.take(i as int))),
        decreases h.melds@.len() - i,
    {
        proof {
            assert(h.melds@.take(i + 1).drop_last() =~= h.melds@.take(i as int));
        }
        total = total.saturating_add(h.melds[i].tiles.len());
        i = i + 1;
    }
    proof {
        assert(h.melds@.take(h.melds@.len() as int) =~= h.melds@);
    }
    total
}

impl HandState {
    /// Tiles in hands, rivers, the live wall, the dead-wall tiles not yet drawn as rinshan
    /// tiles, and the tile of an open kakan window (capped at the largest `usize`).
    pub fn accounted_tile_count(&self) -> (n: usize)
        ensures
            n == capped(self.accounted()),
    {
        let mut in_hands: usize = 0;
        let mut i: usize = 0;
        while i < self.hands.len()
            invariant
                i <= self.hands@.len(),
                in_hands == capped(hands_total(self.hands@.take(i as int))),
            decreases self.hands@.len() - i,
        {
            proof {
                assert(self.hands@.take(i + 1).drop_last() =~= self.hands@.take(i as int));
            }
            in_hands = in_hands.saturating_add(hand_tiles_capped(&self.hands[i]));
            i = i + 1;
        }
        proof {
            assert(self.hands@.take(self.hands@.len() as int) =~= self.hands@);
        }
        let mut in_rivers: usize = 0;
        let mut j: usize = 0;
        while j < self.discards.len()
            invariant
                j <= self.discards@.len(),
                in_rivers == capped(river_total(self.discards@.take(j as int))),
            decreases self.discards@.len() - j,
        {
            proof {
                assert(self.discards@.take(j + 1).drop_last() =~= self.discards@.take(j as int));
            }
            in_rivers = in_rivers.saturating_add(self.discards[j].len());
            j = j + 1;
        }
        proof {
            assert(self.discards@.take(self.discards@.len() as int) =~= self.discards@);
        }
        let in_wall = self.wall.live_remaining().saturating_add(self.wall.dead_remaining());
        let in_reaction: usize = match self.reaction {
            Some(r) => if r.kind == ReactionKind::Kakan {
                1
            } else {
                0
            },
            None => 0,
        };
        in_hands.saturating_add(in_rivers).saturating_add(in_wall).saturating_add(in_reaction)
    }

    /// Checks that the state accounts for exactly the 136 tiles of a set.
    pub fn validate_tile_conservation(&self) -> (r: Result<(), Error>)
        ensures
            r is Ok <==> self.accounted() == WALL_SIZE,
            r is Err ==> r == Err::<(), Error>(Error::TileConservation {
                expected: WALL_SIZE,
                actual: capped(self.accounted()),
            }),
    {
        let count = self.accounted_tile_count();
        if count != WALL_SIZE {
            return Err(Error::TileConservation { expected: WALL_SIZE, actual: count });
        }
        Ok(())
    }

    /// Whether the state has the shape every engine operation relies on (see `wf`).
    pub fn is_well_formed(&self) -> (b: bool)
        ensures
            b == self.wf(),
    {
        if self.hands.len() != 4 || self.discards.len() != 4 || self.dealer >= 4 || self.current_actor >= 4 {
            return false;
        }
        if !self.wall.is_sound() {
            return false;
        }
        if let Some((s, _)) = self.last_discard {
            if s >= 4 {
                return false;
            }
        }
        let mut i: usize = 0;
        while i < 4
            invariant
                i <= 4,
                self.hands@.len() == 4,
                forall|k: int| 0 <= k < i ==> hand_sizes_ok(#[trigger] self.hands@[k]),
            decreases 4 - i,
        {
            if !hand_shape_in_range(&self.hands[i]) {
                return false;
            }
            i = i + 1;
        }
        let mut j: usize = 0;
        while j < 4
            invariant
                j <= 4,
                forall|k: int| 0 <= k < j ==> (#[trigger] self.double_riichi@[k] ==> self.riichi@[k]),
            decreases 4 - j,
        {
            if self.double_riichi[j] && !self.riichi[j] {
                return false;
            }
            j = j + 1;
        }
        match self.reaction {
            Some(r) => {
                if r.discarder >= 4 {
                    return false;
                }
                if r.kind == ReactionKind::Kakan {
                    if self.phase != HandPhase::Reaction {
                        return false;
                    }
                    match r.kakan_meld_index {
                        Some(m) => m < self.hands[r.discarder].melds.len(),
                        None => false,
                    }
                } else {
                    true
                }
            },
            None => true,
        }
    }

    /// A copy of everything but the rules, for recordings.
    pub fn to_snapshot(&self) -> (s: HandSnapshot)
        ensures
            records(s, *self),
            self.wf() && self.accounted() == WALL_SIZE ==> snapshot_error(s.wall) is None && s.tile_total() == WALL_SIZE
                && s.shape_ok(),
    {
        let mut hands: Vec<Hand> = Vec::new();
        let mut i: usize = 0;
        while i < self.hands.len()
            invariant
                i <= self.hands@.len(),
                hands@.len() == i,
                forall|k: int| 0 <= k < i ==> same_hand(#[trigger] hands@[k], self.hands@[k]),
            decreases self.hands@.len() - i,
        {
            hands.push(self.hands[i].duplicate());
            i = i + 1;
        }
        let mut discards: Vec<Vec<Tile>> = Vec::new();
        let mut j: usize = 0;
        while j < self.discards.len()
            invariant
                j <= self.discards@.len(),
                discards@.len() == j,
                forall|k: int| 0 <= k < j ==> (#[trigger] discards@[k])@ == self.discards@[k]@,
            decreases self.discards@.len() - j,
        {
            discards.push(crate::hand::copy_tiles(self.discards[j].as_slice()));
            j = j + 1;
        }
        let end_reason = match &self.end_reason {
            Some(e) => Some(e.duplicate()),
            None => None,
        };
        let snap = HandSnapshot {
            dealer: self.dealer,
            current_actor: self.current_actor,
            phase: self.phase,
            hands,
            discards,
            wall: self.wall.snapshot(),
            reaction: self.reaction,
            last_discard: self.last_discard,
            scores: self.scores,
            riichi: self.riichi,
            table_riichi_sticks: self.table_riichi_sticks,
            honba: self.honba,
            last_draw: self.last_draw,
            first_discards: self.first_discards,
            is_dealer_first_turn: self.is_dealer_first_turn,
            temporary_furiten: self.temporary_furiten,
            riichi_furiten: self.riichi_furiten,
            ippatsu_live: self.ippatsu_live,
            double_riichi: self.double_riichi,
            calls_made: self.calls_made,
            is_rinshan_draw: self.is_rinshan_draw,
            live_draws: self.live_draws,
            end_reason,
        };
        proof {
            if self.wf() && self.accounted() == WALL_SIZE {
                lemma_snapshot_accepted(*self, snap);
            }
        }
        snap
    }

    /// Restores a recorded hand under `config`: the wall must be a sound partition and the
    /// state must account for exactly 136 tiles. The restored state keeps the engine's
    /// invariant exactly when the record has its shape (see `is_well_formed`).
    pub fn from_snapshot(snapshot: HandSnapshot, config: RulesConfig) -> (r: Result<HandState, Error>)
        ensures
            r is Ok <==> snapshot_error(snapshot.wall) is None && snapshot.tile_total() == WALL_SIZE,
            r matches Ok(s) ==> s.accounted() == WALL_SIZE && restored(s, snapshot, config) && (s.wf()
                <==> snapshot.shape_ok()),
            snapshot_error(snapshot.wall) matches Some(e) ==> r == Err::<HandState, Error>(e),
            snapshot_error(snapshot.wall) is None && snapshot.tile_total() != WALL_SIZE ==> r == Err::<HandState, Error>(
                Error::TileConservation { expected: WALL_SIZE, actual: capped(snapshot.tile_total()) },
            ),
    {
        let wall = match Wall::from_snapshot(snapshot.wall) {
            Ok(w) => w,
            Err(e) => {
                return Err(e);
            },
        };
        let state = HandState {
            dealer: snapshot.dealer,
            current_actor: snapshot.current_actor,
            phase: snapshot.phase,
            hands: snapshot.hands,
            discards: snapshot.discards,
            wall,
            reaction: snapshot.reaction,
            last_discard: snapshot.last_discard,
            config,
            scores: snapshot.scores,
            riichi: snapshot.riichi,
            table_riichi_sticks: snapshot.table_riichi_sticks,
            honba: snapshot.honba,
            last_draw: snapshot.last_draw,
            first_discards: snapshot.first_discards,
            is_dealer_first_turn: snapshot.is_dealer_first_turn,
            temporary_furiten: snapshot.temporary_furiten,
            riichi_furiten: snapshot.riichi_furiten,
            ippatsu_live: snapshot.ippatsu_live,
            double_riichi: snapshot.double_riichi,
            calls_made: snapshot.calls_made,
            is_rinshan_draw: snapshot.is_rinshan_draw,
            live_draws: snapshot.live_draws,
            end_reason: snapshot.end_reason,
        };
        match state.validate_tile_conservation() {
            Ok(()) => Ok(state),
            Err(e) => Err(e),
        }
    }
}

} // verus!
