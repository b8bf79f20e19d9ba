use vstd::prelude::*;

use crate::error::Error;
use crate::tile::Tile;

verus! {

pub const WALL_SIZE: usize = 136;

pub const DEAD_WALL_SIZE: usize = 14;

pub const INITIAL_DEAL_SIZE: usize = 53;

pub const LIVE_WALL_AFTER_SPLIT: usize = 122;

pub const LIVE_WALL_AFTER_DEAL: usize = 69;

/// Dead-wall positions 0..10 hold the dora indicators (even positions) and the ura-dora
/// indicators under them (odd positions); the rinshan tiles start here.
pub const RINSHAN_START: usize = 10;

/// Live and dead wall partitions after the initial shuffle.
#[derive(Debug, Clone, PartialEq, Eq)]
pub struct WallLayout {
    live: Vec<Tile>,
    dead: Vec<Tile>,
    kan_count: u8,
    rinshan_taken: u8,
}

/// Serializable wall partition for match recordings.
#[derive(Debug, Clone, PartialEq, Eq)]
pub struct WallSnapshot {
    pub live: Vec<Tile>,
    pub dead: Vec<Tile>,
    pub kan_count: u8,
    pub rinshan_taken: u8,
}

/// Why a live/dead partition is refused, if it is.
pub open spec fn partition_error(live_len: nat, dead_len: nat) -> Option<Error> {
    if dead_len != DEAD_WALL_SIZE {
        Some(Error::InvalidDeadWallSize { expected: DEAD_WALL_SIZE, actual: dead_len as usize })
    } else if live_len + dead_len > WALL_SIZE {
        Some(
            Error::InvalidWallSize {
                actual: if live_len + dead_len > usize::MAX {
                    usize::MAX
                } else {
                    (live_len + dead_len) as usize
                },
            },
        )
    } else {
        None
    }
}

/// Kan bookkeeping that keeps the revealed indicators in positions 0..10 and the rinshan
/// tiles drawn in positions 10..14 of the dead wall.
pub open spec fn kan_state_ok(kan_count: u8, rinshan_taken: u8) -> bool {
    kan_count <= 4 && rinshan_taken <= 4
}

/// Dead-wall position of the next rinshan tile.
pub open spec fn rinshan_pos(rinshan_taken: u8) -> int {
    RINSHAN_START + rinshan_taken
}

/// Dead-wall position of the dora indicator that the next kan reveals.
pub open spec fn next_dora_pos(kan_count: u8) -> int {
    2 * (kan_count + 1)
}

/// Why a recorded wall is refused, if it is: a bad partition first, then bad kan bookkeeping.
pub open spec fn snapshot_error(s: WallSnapshot) -> Option<Error> {
    match partition_error(s.live@.len(), s.dead@.len()) {
        Some(e) => Some(e),
        None => if kan_state_ok(s.kan_count, s.rinshan_taken) {
            None
        } else {
            Some(Error::InvalidKanState { kan_count: s.kan_count, rinshan_taken: s.rinshan_taken })
        },
    }
}

impl WallLayout {
    pub closed spec fn live_seq(&self) -> Seq<Tile> {
        self.live@
    }

    pub closed spec fn dead_seq(&self) -> Seq<Tile> {
        self.dead@
    }

    pub closed spec fn kans(&self) -> u8 {
        self.kan_count
    }

    pub closed spec fn rinshans(&self) -> u8 {
        self.rinshan_taken
    }

    /// Dead-wall tiles not yet drawn as rinshan tiles.
    pub open spec fn dead_left(&self) -> nat {
        if self.dead_seq().len() >= self.rinshans() {
            (self.dead_seq().len() - self.rinshans()) as nat
        } else {
            0
        }
    }

    /// The layout's invariant: a 14-tile dead wall, at most 136 tiles, kan counters in range.
    pub open spec fn wf(&self) -> bool {
        &&& self.dead_seq().len() == DEAD_WALL_SIZE
        &&& self.live_seq().len() + DEAD_WALL_SIZE <= WALL_SIZE
        &&& kan_state_ok(self.kans(), self.rinshans())
    }

    pub fn new(live: Vec<Tile>, dead: Vec<Tile>) -> (r: Result<WallLayout, Error>)
        ensures
            partition_error(live@.len(), dead@.len()) is None <==> r is Ok,
            r matches Ok(l) ==> l.wf() && l.live_seq() == live@ && l.dead_seq() == dead@
                && l.kans() == 0 && l.rinshans() == 0,
            r matches Err(e) ==> Some(e) == partition_error(live@.len(), dead@.len()),
    {
        WallLayout::from_parts_with_state(live, dead, 0, 0)
    }

    /// A layout with kan bookkeeping already advanced (for restoring recordings).
    pub fn from_parts_with_state(live: Vec<Tile>, dead: Vec<Tile>, kan_count: u8, rinshan_taken: u8) -> (r:
        Result<WallLayout, Error>)
        ensures
            r is Ok <==> partition_error(live@.len(), dead@.len()) is None && kan_state_ok(
                kan_count,
                rinshan_taken,
            ),
            r matches Ok(l) ==> l.wf() && l.live_seq() == live@ && l.dead_seq() == dead@
                && l.kans() == kan_count && l.rinshans() == rinshan_taken,
            r matches Err(e) ==> (partition_error(live@.len(), dead@.len()) matches Some(pe)
                ==> e == pe),
            r matches Err(e) ==> (partition_error(live@.len(), dead@.len()) is None ==> e
                == Error::InvalidKanState { kan_count, rinshan_taken }),
    {
        let layout = WallLayout { live, dead, kan_count, rinshan_taken };
        match layout.validate() {
            Ok(()) => {},
            Err(e) => {
                return Err(e);
            },
        }
        if kan_count > 4 || rinshan_taken > 4 {
            return Err(Error::InvalidKanState { kan_count, rinshan_taken });
        }
        Ok(layout)
    }

    /// Whether the layout keeps its invariant.
    pub fn is_sound(&self) -> (b: bool)
        ensures
            b == self.wf(),
    {
        self.dead.len() == DEAD_WALL_SIZE && self.live.len() <= WALL_SIZE - DEAD_WALL_SIZE && self.kan_count <= 4
            && self.rinshan_taken <= 4
    }

    pub fn live(&self) -> (r: &[Tile])
        ensures
            r@ == self.live_seq(),
    {
        self.live.as_slice()
    }

    pub fn dead(&self) -> (r: &[Tile])
        ensures
            r@ == self.dead_seq(),
    {
        self.dead.as_slice()
    }

    pub fn kan_count(&self) -> (k: u8)
        ensures
            k == self.kans(),
    {
        self.kan_count
    }

    pub fn rinshan_taken(&self) -> (k: u8)
        ensures
            k == self.rinshans(),
    {
        self.rinshan_taken
    }

    /// Dead-wall tiles not yet drawn as rinshan tiles.
    pub fn dead_remaining(&self) -> (n: usize)
        ensures
            n == self.dead_left(),
    {
        self.dead.len().saturating_sub(self.rinshan_taken as usize)
    }

    /// Live-wall tiles drawn so far (deal and draws), counted from the full 122-tile live wall.
    pub fn live_drawn(&self) -> (n: usize)
        requires
            self.wf(),
        ensures
            n == LIVE_WALL_AFTER_SPLIT - self.live_seq().len(),
    {
        LIVE_WALL_AFTER_SPLIT - self.live.len()
    }

    pub fn dora_indicator(&self) -> (t: Tile)
        requires
            self.wf(),
        ensures
            t == self.dead_seq()[0],
    {
        self.dead[0]
    }

    /// The revealed dora indicators: dead-wall positions 0, 2, 4, … one per kan plus one.
    pub fn dora_indicators(&self) -> (v: Vec<Tile>)
        requires
            self.wf(),
        ensures
            v@.len() == self.kans() + 1,
            forall|i: int| 0 <= i < v@.len() ==> v@[i] == self.dead_seq()[2 * i],
    {
        let count = 1 + self.kan_count as usize;
        let mut v: Vec<Tile> = Vec::new();
        let mut i: usize = 0;
        while i < count
            invariant
                self.wf(),
                count == self.kans() + 1,
                i <= count,
                v@.len() == i,
                forall|j: int| 0 <= j < i ==> v@[j] == self.dead_seq()[2 * j],
            decreases count - i,
        {
            v.push(self.dead[i * 2]);
            i = i + 1;
        }
        v
    }

    /// The ura-dora indicators: the tiles under the dora indicators (positions 1, 3, 5, …).
    pub fn ura_dora_indicators(&self) -> (v: Vec<Tile>)
        requires
            self.wf(),
        ensures
            v@.len() == self.kans() + 1,
            forall|i: int| 0 <= i < v@.len() ==> v@[i] == self.dead_seq()[2 * i + 1],
    {
        let count = 1 + self.kan_count as usize;
        let mut v: Vec<Tile> = Vec::new();
        let mut i: usize = 0;
        while i < count
            invariant
                self.wf(),
                count == self.kans() + 1,
                i <= count,
                v@.len() == i,
                forall|j: int| 0 <= j < i ==> v@[j] == self.dead_seq()[2 * j + 1],
            decreases count - i,
        {
            v.push(self.dead[i * 2 + 1]);
            i = i + 1;
        }
        v
    }

    /// Takes the next tile from the front of the live wall.
    pub fn draw_live(&mut self) -> (r: Result<Tile, Error>)
        requires
            old(self).wf(),
        ensures
            final(self).wf(),
            final(self).dead_seq() == old(self).dead_seq(),
            final(self).kans() == old(self).kans(),
            final(self).rinshans() == old(self).rinshans(),
            old(self).live_seq().len() == 0 ==> r == Err::<Tile, Error>(Error::LiveWallExhausted)
                && final(self).live_seq() == old(self).live_seq(),
            old(self).live_seq().len() > 0 ==> r == Ok::<Tile, Error>(old(self).live_seq()[0])
                && final(self).live_seq() == old(self).live_seq().drop_first(),
    {
        if self.live.len() == 0 {
            return Err(Error::LiveWallExhausted);
        }
        let t = self.live.remove(0);
        assert(self.live@ =~= old(self).live@.drop_first());
        Ok(t)
    }

    /// Draws a rinshan tile and reveals the next dora indicator after a kan. Rinshan tiles
    /// come from positions 10..14 of the dead wall, indicators from positions 2, 4, 6, 8, so a
    /// tile drawn as rinshan is never an indicator.
    pub fn apply_kan(&mut self) -> (r: Result<(Tile, Tile), Error>)
        requires
            old(self).wf(),
        ensures
            final(self).wf(),
            final(self).live_seq() == old(self).live_seq(),
            final(self).dead_seq() == old(self).dead_seq(),
            rinshan_pos(old(self).rinshans()) >= DEAD_WALL_SIZE ==> r == Err::<(Tile, Tile), Error>(
                Error::RinshanExhausted,
            ) && *final(self) == *old(self),
            rinshan_pos(old(self).rinshans()) < DEAD_WALL_SIZE && next_dora_pos(old(self).kans())
                >= RINSHAN_START ==> r == Err::<(Tile, Tile), Error>(Error::DoraRevealExhausted)
                && *final(self) == *old(self),
            r is Ok <==> rinshan_pos(old(self).rinshans()) < DEAD_WALL_SIZE && next_dora_pos(old(self).kans())
                < RINSHAN_START,
            r matches Ok(p) ==> p == (
                old(self).dead_seq()[rinshan_pos(old(self).rinshans())],
                old(self).dead_seq()[next_dora_pos(old(self).kans())],
            ) && final(self).kans() == old(self).kans() + 1 && final(self).rinshans()
                == old(self).rinshans() + 1,
    {
        let rinshan_index = RINSHAN_START + self.rinshan_taken as usize;
        let dora_index = 2 * (self.kan_count as usize + 1);
        if rinshan_index >= DEAD_WALL_SIZE {
            return Err(Error::RinshanExhausted);
        }
        if dora_index >= RINSHAN_START {
            return Err(Error::DoraRevealExhausted);
        }
        self.kan_count = self.kan_count + 1;
        self.rinshan_taken = self.rinshan_taken + 1;
        Ok((self.dead[rinshan_index], self.dead[dora_index]))
    }

    /// Checks the partition sizes: a 14-tile dead wall and at most 136 tiles in all.
    pub fn validate(&self) -> (r: Result<(), Error>)
        ensures
            r is Ok <==> partition_error(self.live_seq().len(), self.dead_seq().len()) is None,
            r matches Err(e) ==> Some(e) == partition_error(
                self.live_seq().len(),
                self.dead_seq().len(),
            ),
    {
        if self.dead.len() != DEAD_WALL_SIZE {
            return Err(
                Error::InvalidDeadWallSize { expected: DEAD_WALL_SIZE, actual: self.dead.len() },
            );
        }
        let total = self.live.len().saturating_add(self.dead.len());
        if total > WALL_SIZE {
            return Err(Error::InvalidWallSize { actual: total });
        }
        Ok(())
    }

    pub fn snapshot(&self) -> (s: WallSnapshot)
        ensures
            s.live@ == self.live_seq(),
            s.dead@ == self.dead_seq(),
            s.kan_count == self.kans(),
            s.rinshan_taken == self.rinshans(),
    {
        WallSnapshot {
            live: crate::hand::copy_tiles(self.live.as_slice()),
            dead: crate::hand::copy_tiles(self.dead.as_slice()),
            kan_count: self.kan_count,
            rinshan_taken: self.rinshan_taken,
        }
    }

    pub fn from_snapshot(snapshot: WallSnapshot) -> (r: Result<WallLayout, Error>)
        ensures
            r is Ok <==> partition_error(snapshot.live@.len(), snapshot.dead@.len()) is None
                && kan_state_ok(snapshot.kan_count, snapshot.rinshan_taken),
            r matches Ok(l) ==> l.wf() && l.live_seq() == snapshot.live@ && l.dead_seq()
                == snapshot.dead@ && l.kans() == snapshot.kan_count && l.rinshans()
                == snapshot.rinshan_taken,
            r matches Err(e) ==> Some(e) == snapshot_error(snapshot),
    {
        WallLayout::from_parts_with_state(
            snapshot.live,
            snapshot.dead,
            snapshot.kan_count,
            snapshot.rinshan_taken,
        )
    }
}

} // verus!
