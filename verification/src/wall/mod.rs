//! The shuffled wall: live tiles to draw from, and the dead wall with dora and rinshan tiles.

pub mod layout;

use rand::rngs::StdRng;
use rand::seq::SliceRandom;
use vstd::multiset::Multiset;
use vstd::prelude::*;

use crate::error::Error;
use crate::hand::{
    DEALER_HAND_SIZE, Hand, NON_DEALER_HAND_SIZE, deal_counts_ok, hand_total, meld_tile_count,
    validate_deal_counts,
};
use crate::rules::RulesConfig;
use crate::tile::{Tile, sorted, standard_set, standard_set_seq};

pub use layout::{
    DEAD_WALL_SIZE, INITIAL_DEAL_SIZE, LIVE_WALL_AFTER_DEAL, LIVE_WALL_AFTER_SPLIT, WALL_SIZE,
    RINSHAN_START, WallLayout, WallSnapshot, kan_state_ok, next_dora_pos, partition_error, rinshan_pos,
    snapshot_error,
};

verus! {

broadcast use vstd::seq_lib::group_to_multiset_ensures;

#[verifier::external_type_specification]
#[verifier::external_body]
pub struct ExStdRng(StdRng);

/// Whether the dead wall still has a rinshan tile and an unrevealed dora indicator for a kan.
pub open spec fn kan_room(w: Wall) -> bool {
    rinshan_pos(w.rinshans()) < DEAD_WALL_SIZE && next_dora_pos(w.kans()) < RINSHAN_START
}

/// `SliceRandom::shuffle` from `rand`: permutes the tiles in place with the generator's
/// randomness. Only that the result holds the same tiles is claimed; the order is left open.
#[verifier::external_body]
fn shuffle_tiles(tiles: &mut Vec<Tile>, rng: &mut StdRng)
    ensures
        final(tiles)@.to_multiset() == old(tiles)@.to_multiset(),
        final(tiles)@.len() == old(tiles)@.len(),
{
    tiles.shuffle(rng);
}

/// Shuffled wall with live and dead sections.
#[derive(Debug, Clone, PartialEq, Eq)]
pub struct Wall {
    layout: WallLayout,
}

/// Result of dealing from a [`Wall`].
#[derive(Debug, Clone, PartialEq, Eq)]
pub struct DealResult {
    pub hands: [Hand; 4],
    pub dealer: usize,
    pub live_remaining: usize,
}

/// Which seat, counted from the dealer, receives the `k`-th dealt tile: three rounds of four
/// tiles to each seat starting with the dealer, then one tile each, then a fourteenth tile to
/// the dealer.
pub open spec fn deal_offset(k: int) -> int {
    if k < 48 {
        (k % 16) / 4
    } else if k < 52 {
        k - 48
    } else {
        0
    }
}

/// How many places after the dealer `seat` sits.
pub open spec fn offset_from(dealer: int, seat: int) -> int {
    (seat - dealer + 4) % 4
}

/// The tiles among the first `n` of `tiles` that the deal gives to the seat `offset` places
/// after the dealer.
pub open spec fn dealt_to(tiles: Seq<Tile>, offset: int, n: int) -> Multiset<Tile>
    decreases n,
{
    if n <= 0 {
        Multiset::empty()
    } else if deal_offset(n - 1) == offset {
        dealt_to(tiles, offset, n - 1).insert(tiles[n - 1])
    } else {
        dealt_to(tiles, offset, n - 1)
    }
}

/// How many of the first `n` dealt tiles go to the seat `offset` places after the dealer.
pub open spec fn dealt_count(offset: int, n: int) -> nat
    decreases n,
{
    if n <= 0 {
        0
    } else if deal_offset(n - 1) == offset {
        dealt_count(offset, n - 1) + 1
    } else {
        dealt_count(offset, n - 1)
    }
}

proof fn lemma_dealt_len(tiles: Seq<Tile>, offset: int, n: int)
    ensures
        dealt_to(tiles, offset, n).len() == dealt_count(offset, n),
    decreases n,
{
    broadcast use vstd::multiset::group_multiset_axioms;

    if n > 0 {
        lemma_dealt_len(tiles, offset, n - 1);
    }
}

proof fn lemma_block_none(offset: int, start: int, n: int)
    requires
        0 <= start,
        0 <= n,
        forall|k: int| start <= k < start + n ==> deal_offset(k) != offset,
    ensures
        dealt_count(offset, start + n) == dealt_count(offset, start),
    decreases n,
{
    if n > 0 {
        lemma_block_none(offset, start, n - 1);
        assert(deal_offset(start + n - 1) != offset);
    }
}

proof fn lemma_block_all(offset: int, start: int, n: int)
    requires
        0 <= start,
        0 <= n,
        forall|k: int| start <= k < start + n ==> deal_offset(k) == offset,
    ensures
        dealt_count(offset, start + n) == dealt_count(offset, start) + n,
    decreases n,
{
    if n > 0 {
        lemma_block_all(offset, start, n - 1);
        assert(deal_offset(start + n - 1) == offset);
    }
}

proof fn lemma_round(o: int, r: int)
    requires
        0 <= o < 4,
        0 <= r < 3,
    ensures
        dealt_count(o, 16 * r + 16) == dealt_count(o, 16 * r) + 4,
{
    assert forall|k: int| 16 * r <= k < 16 * r + 4 * o implies deal_offset(k) != o by {
        assert(k % 16 == k - 16 * r);
    }
    lemma_block_none(o, 16 * r, 4 * o);
    assert forall|k: int| 16 * r + 4 * o <= k < 16 * r + 4 * o + 4 implies deal_offset(k) == o by {
        assert(k % 16 == k - 16 * r);
    }
    lemma_block_all(o, 16 * r + 4 * o, 4);
    assert forall|k: int| 16 * r + 4 * o + 4 <= k < 16 * r + 16 implies deal_offset(k) != o by {
        assert(k % 16 == k - 16 * r);
    }
    lemma_block_none(o, 16 * r + 4 * o + 4, 12 - 4 * o);
}

/// The deal gives the dealer fourteen tiles and every other seat thirteen.
pub proof fn lemma_deal_sizes(offset: int)
    requires
        0 <= offset < 4,
    ensures
        dealt_count(offset, 53) == if offset == 0 { 14nat } else { 13nat },
{
    let o = offset;
    lemma_round(o, 0);
    lemma_round(o, 1);
    lemma_round(o, 2);
    lemma_block_none(o, 48, o);
    lemma_block_all(o, 48 + o, 1);
    lemma_block_none(o, 49 + o, 3 - o);
    assert(dealt_count(o, 52) == 13);
}

impl Wall {
    pub closed spec fn inner(&self) -> WallLayout {
        self.layout
    }

    pub open spec fn live_seq(&self) -> Seq<Tile> {
        self.inner().live_seq()
    }

    pub open spec fn dead_seq(&self) -> Seq<Tile> {
        self.inner().dead_seq()
    }

    pub open spec fn kans(&self) -> u8 {
        self.inner().kans()
    }

    pub open spec fn rinshans(&self) -> u8 {
        self.inner().rinshans()
    }

    pub open spec fn wf(&self) -> bool {
        self.inner().wf()
    }

    /// Dead-wall tiles not yet drawn as rinshan tiles.
    pub open spec fn dead_left(&self) -> nat {
        self.inner().dead_left()
    }

    /// Shuffles a standard set and splits off the last fourteen tiles as the dead wall.
    pub fn new(rules: &RulesConfig, rng: StdRng) -> (w: Wall)
        ensures
            w.wf(),
            (w.live_seq() + w.dead_seq()).to_multiset() == standard_set_seq(
                rules.aka_dora,
            ).to_multiset(),
            w.live_seq().len() == LIVE_WALL_AFTER_SPLIT,
            w.kans() == 0,
            w.rinshans() == 0,
    {
        let mut rng = rng;
        let mut tiles = standard_set(rules.aka_dora);
        shuffle_tiles(&mut tiles, &mut rng);
        let ghost shuffled = tiles@;
        let dead = tiles.split_off(LIVE_WALL_AFTER_SPLIT);
        proof {
            assert(tiles@ + dead@ =~= shuffled);
        }
        let layout = WallLayout::new(tiles, dead);
        Wall { layout: layout.unwrap() }
    }

    pub fn from_parts(live: Vec<Tile>, dead: Vec<Tile>) -> (r: Result<Wall, Error>)
        ensures
            partition_error(live@.len(), dead@.len()) is None <==> r is Ok,
            r matches Ok(w) ==> w.wf() && w.live_seq() == live@ && w.dead_seq() == dead@
                && w.kans() == 0 && w.rinshans() == 0,
            r matches Err(e) ==> Some(e) == partition_error(live@.len(), dead@.len()),
    {
        match WallLayout::new(live, dead) {
            Ok(layout) => Ok(Wall { layout }),
            Err(e) => Err(e),
        }
    }

    /// Whether the wall keeps its invariant (a 14-tile dead wall, kan counters in range).
    pub fn is_sound(&self) -> (b: bool)
        ensures
            b == self.wf(),
    {
        self.layout.is_sound()
    }

    pub fn layout(&self) -> (l: &WallLayout)
        ensures
            *l == self.inner(),
    {
        &self.layout
    }

    pub fn live_remaining(&self) -> (n: usize)
        ensures
            n == self.live_seq().len(),
    {
        self.layout.live().len()
    }

    /// Dead-wall tiles not yet drawn as rinshan tiles.
    pub fn dead_remaining(&self) -> (n: usize)
        ensures
            n == self.dead_left(),
    {
        self.layout.dead_remaining()
    }

    pub fn dead_wall(&self) -> (r: &[Tile])
        ensures
            r@ == self.dead_seq(),
    {
        self.layout.dead()
    }

    pub fn dora_indicator(&self) -> (t: Tile)
        requires
            self.wf(),
        ensures
            t == self.dead_seq()[0],
    {
        self.layout.dora_indicator()
    }

    pub fn dora_indicators(&self) -> (v: Vec<Tile>)
        requires
            self.wf(),
        ensures
            v@.len() == self.kans() + 1,
            forall|i: int| 0 <= i < v@.len() ==> v@[i] == self.dead_seq()[2 * i],
    {
        self.layout.dora_indicators()
    }

    pub fn ura_dora_indicators(&self) -> (v: Vec<Tile>)
        requires
            self.wf(),
        ensures
            v@.len() == self.kans() + 1,
            forall|i: int| 0 <= i < v@.len() ==> v@[i] == self.dead_seq()[2 * i + 1],
    {
        self.layout.ura_dora_indicators()
    }

    pub fn live_drawn(&self) -> (n: usize)
        requires
            self.wf(),
        ensures
            n == LIVE_WALL_AFTER_SPLIT - self.live_seq().len(),
    {
        self.layout.live_drawn()
    }

    /// Deals 13 tiles to each seat and a 14th to the dealer, from the front of the live wall.
    pub fn deal(&mut self, dealer: usize) -> (r: Result<DealResult, Error>)
        requires
            old(self).wf(),
        ensures
            final(self).wf(),
            final(self).dead_seq() == old(self).dead_seq(),
            final(self).kans() == old(self).kans(),
            final(self).rinshans() == old(self).rinshans(),
            dealer >= 4 ==> r == Err::<DealResult, Error>(Error::InvalidSeat(dealer))
                && *final(self) == *old(self),
            dealer < 4 && old(self).live_seq().len() < INITIAL_DEAL_SIZE ==> r == Err::<
                DealResult,
                Error,
            >(Error::LiveWallExhausted) && final(self).live_seq().len() == 0,
            dealer < 4 && old(self).live_seq().len() >= INITIAL_DEAL_SIZE ==> r is Ok,
            r matches Ok(d) ==> {
                &&& d.dealer == dealer
                &&& final(self).live_seq() == old(self).live_seq().skip(INITIAL_DEAL_SIZE as int)
                &&& d.live_remaining == final(self).live_seq().len()
                &&& deal_counts_ok(d.hands@, dealer as int)
                &&& forall|seat: int|
                    0 <= seat < 4 ==> {
                        &&& (#[trigger] d.hands@[seat]).concealed@.to_multiset() == dealt_to(
                            old(self).live_seq(),
                            offset_from(dealer as int, seat),
                            INITIAL_DEAL_SIZE as int,
                        )
                        &&& sorted(d.hands@[seat].concealed@)
                        &&& d.hands@[seat].melds@.len() == 0
                    }
            },
    {
        if dealer >= 4 {
            return Err(Error::InvalidSeat(dealer));
        }
        let ghost start = self.layout.live_seq();
        let mut r0 = Hand::empty();
        let mut r1 = Hand::empty();
        let mut r2 = Hand::empty();
        let mut r3 = Hand::empty();
        let mut k: usize = 0;
        while k < INITIAL_DEAL_SIZE
            invariant
                0 <= dealer < 4,
                k <= INITIAL_DEAL_SIZE,
                self.wf(),
                self.dead_seq() == old(self).dead_seq(),
                self.kans() == old(self).kans(),
                self.rinshans() == old(self).rinshans(),
                start == old(self).live_seq(),
                start.len() >= k,
                self.live_seq() == start.skip(k as int),
                r0.concealed@.to_multiset() == dealt_to(start, 0, k as int),
                r1.concealed@.to_multiset() == dealt_to(start, 1, k as int),
                r2.concealed@.to_multiset() == dealt_to(start, 2, k as int),
                r3.concealed@.to_multiset() == dealt_to(start, 3, k as int),
                r0.melds@.len() == 0,
                r1.melds@.len() == 0,
                r2.melds@.len() == 0,
                r3.melds@.len() == 0,
            decreases INITIAL_DEAL_SIZE - k,
        {
            let offset = if k < 48 {
                (k % 16) / 4
            } else if k < 52 {
                k - 48
            } else {
                0
            };
            let tile = match self.layout.draw_live() {
                Ok(t) => t,
                Err(e) => {
                    proof {
                        assert(start.skip(k as int).len() == 0);
                    }
                    return Err(e);
                },
            };
            proof {
                assert(tile == start[k as int]);
                assert(start.skip(k as int).drop_first() =~= start.skip(k + 1));
            }
            if offset == 0 {
                r0.push_concealed(tile);
            } else if offset == 1 {
                r1.push_concealed(tile);
            } else if offset == 2 {
                r2.push_concealed(tile);
            } else {
                r3.push_concealed(tile);
            }
            k = k + 1;
        }
        r0.sort_concealed();
        r1.sort_concealed();
        r2.sort_concealed();
        r3.sort_concealed();
        proof {
            lemma_dealt_len(start, 0, 53);
            lemma_dealt_len(start, 1, 53);
            lemma_dealt_len(start, 2, 53);
            lemma_dealt_len(start, 3, 53);
            lemma_deal_sizes(0);
            lemma_deal_sizes(1);
            lemma_deal_sizes(2);
            lemma_deal_sizes(3);
            assert(meld_tile_count(r0.melds@) == 0);
            assert(meld_tile_count(r1.melds@) == 0);
            assert(meld_tile_count(r2.melds@) == 0);
            assert(meld_tile_count(r3.melds@) == 0);
        }
        let hands = if dealer == 0 {
            [r0, r1, r2, r3]
        } else if dealer == 1 {
            [r3, r0, r1, r2]
        } else if dealer == 2 {
            [r2, r3, r0, r1]
        } else {
            [r1, r2, r3, r0]
        };
        match validate_deal_counts(&hands, dealer) {
            Ok(()) => {},
            Err(e) => {
                return Err(e);
            },
        }
        let live_remaining = self.live_remaining();
        Ok(DealResult { hands, dealer, live_remaining })
    }

    pub fn draw_live(&mut self) -> (r: Result<Tile, Error>)
        requires
            old(self).wf(),
        ensures
            final(self).wf(),
            final(self).dead_seq() == old(self).dead_seq(),
            final(self).kans() == old(self).kans(),
            final(self).rinshans() == old(self).rinshans(),
            old(self).live_seq().len() == 0 ==> r == Err::<Tile, Error>(Error::LiveWallExhausted)
                && final(self).live_seq() == old(self).live_seq(),
            old(self).live_seq().len() > 0 ==> r == Ok::<Tile, Error>(old(self).live_seq()[0])
                && final(self).live_seq() == old(self).live_seq().drop_first(),
    {
        self.layout.draw_live()
    }

    pub fn apply_kan(&mut self) -> (r: Result<(Tile, Tile), Error>)
        requires
            old(self).wf(),
        ensures
            final(self).wf(),
            final(self).live_seq() == old(self).live_seq(),
            final(self).dead_seq() == old(self).dead_seq(),
            rinshan_pos(old(self).rinshans()) >= DEAD_WALL_SIZE ==> r == Err::<(Tile, Tile), Error>(
                Error::RinshanExhausted,
            ) && *final(self) == *old(self),
            rinshan_pos(old(self).rinshans()) < DEAD_WALL_SIZE && next_dora_pos(old(self).kans())
                >= RINSHAN_START ==> r == Err::<(Tile, Tile), Error>(Error::DoraRevealExhausted)
                && *final(self) == *old(self),
            r is Ok <==> kan_room(*old(self)),
            r matches Ok(p) ==> p == (
                old(self).dead_seq()[rinshan_pos(old(self).rinshans())],
                old(self).dead_seq()[next_dora_pos(old(self).kans())],
            ) && final(self).kans() == old(self).kans() + 1 && final(self).rinshans()
                == old(self).rinshans() + 1,
    {
        let r = self.layout.apply_kan();
        proof {
            if r is Err {
                assert(self.layout == old(self).layout);
            }
        }
        r
    }

    pub fn kan_count(&self) -> (k: u8)
        ensures
            k == self.kans(),
    {
        self.layout.kan_count()
    }

    pub fn snapshot(&self) -> (s: WallSnapshot)
        ensures
            s.live@ == self.live_seq(),
            s.dead@ == self.dead_seq(),
            s.kan_count == self.kans(),
            s.rinshan_taken == self.rinshans(),
    {
        self.layout.snapshot()
    }

    pub fn from_snapshot(snapshot: WallSnapshot) -> (r: Result<Wall, Error>)
        ensures
            r is Ok <==> partition_error(snapshot.live@.len(), snapshot.dead@.len()) is None
                && kan_state_ok(snapshot.kan_count, snapshot.rinshan_taken),
            r matches Ok(w) ==> w.wf() && w.live_seq() == snapshot.live@ && w.dead_seq()
                == snapshot.dead@ && w.kans() == snapshot.kan_count && w.rinshans()
                == snapshot.rinshan_taken,
            r matches Err(e) ==> Some(e) == snapshot_error(snapshot),
    {
        match WallLayout::from_snapshot(snapshot) {
            Ok(layout) => Ok(Wall { layout }),
            Err(e) => Err(e),
        }
    }
}

impl DealResult {
    pub fn hand(&self, seat: usize) -> (h: &Hand)
        requires
            seat < 4,
        ensures
            *h == self.hands@[seat as int],
    {
        &self.hands[seat]
    }

    pub fn dealer_hand_size(&self) -> (n: usize)
        ensures
            n == DEALER_HAND_SIZE,
    {
        DEALER_HAND_SIZE
    }

    pub fn non_dealer_hand_size(&self) -> (n: usize)
        ensures
            n == NON_DEALER_HAND_SIZE,
    {
        NON_DEALER_HAND_SIZE
    }
}

} // verus!
