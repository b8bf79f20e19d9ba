//! A seat's tiles: the concealed hand and the melds laid open on the table.

use vstd::prelude::*;

use crate::error::Error;
use crate::tile::{Tile, sort_tiles, sorted, tile_identity, tile_rank, tile_suit};

verus! {

broadcast use vstd::seq_lib::group_to_multiset_ensures;

pub const DEALER_HAND_SIZE: usize = 14;

pub const NON_DEALER_HAND_SIZE: usize = 13;

/// `s` with the first occurrence of `t` taken out (unchanged when `t` does not occur).
pub open spec fn remove_first(s: Seq<Tile>, t: Tile) -> Seq<Tile>
    decreases s.len(),
{
    if s.len() == 0 {
        s
    } else if s[0] == t {
        s.drop_first()
    } else {
        seq![s[0]] + remove_first(s.drop_first(), t)
    }
}

/// Index of the first occurrence of `t` in `s`.
pub open spec fn first_index(s: Seq<Tile>, t: Tile, i: int) -> bool {
    &&& 0 <= i < s.len()
    &&& s[i] == t
    &&& forall|j: int| 0 <= j < i ==> s[j] != t
}

/// Removing at the first occurrence is `remove_first`; it takes exactly one `t` away.
pub proof fn lemma_remove_first_at(s: Seq<Tile>, t: Tile, i: int)
    requires
        first_index(s, t, i),
    ensures
        remove_first(s, t) == s.remove(i),
        remove_first(s, t).to_multiset() == s.to_multiset().remove(t),
    decreases s.len(),
{
    if i == 0 {
        assert(s.drop_first() =~= s.remove(0));
    } else {
        lemma_remove_first_at(s.drop_first(), t, i - 1);
        assert(seq![s[0]] + s.drop_first().remove(i - 1) =~= s.remove(i));
    }
}

/// A tile that occurs has a first occurrence.
proof fn lemma_first_index_exists(s: Seq<Tile>, t: Tile) -> (i: int)
    requires
        s.contains(t),
    ensures
        first_index(s, t, i),
    decreases s.len(),
{
    if s[0] == t {
        0
    } else {
        assert(s.drop_first().contains(t)) by {
            let k = choose|k: int| 0 <= k < s.len() && s[k] == t;
            assert(s.drop_first()[k - 1] == t);
        }
        let j = lemma_first_index_exists(s.drop_first(), t);
        assert forall|m: int| 0 <= m < j + 1 implies s[m] != t by {
            if m > 0 {
                assert(s[m] == s.drop_first()[m - 1]);
            }
        }
        j + 1
    }
}

/// Taking a tile that occurs out of a sequence takes it out of its multiset.
pub proof fn lemma_remove_first_multiset(s: Seq<Tile>, t: Tile)
    requires
        s.contains(t),
    ensures
        remove_first(s, t).to_multiset() == s.to_multiset().remove(t),
{
    let i = lemma_first_index_exists(s, t);
    lemma_remove_first_at(s, t, i);
}

/// Removing a tile that does not occur changes nothing.
pub proof fn lemma_remove_first_absent(s: Seq<Tile>, t: Tile)
    requires
        !s.contains(t),
    ensures
        remove_first(s, t) == s,
    decreases s.len(),
{
    if s.len() > 0 {
        assert(!s.drop_first().contains(t)) by {
            if s.drop_first().contains(t) {
                let k = choose|k: int| 0 <= k < s.drop_first().len() && s.drop_first()[k] == t;
                assert(s[k + 1] == t);
            }
        }
        lemma_remove_first_absent(s.drop_first(), t);
        assert(seq![s[0]] + s.drop_first() =~= s);
    }
}

/// Position of the first occurrence of `t`, if any.
pub fn find_tile(tiles: &[Tile], t: Tile) -> (r: Option<usize>)
    ensures
        r matches Some(i) ==> first_index(tiles@, t, i as int),
        r is None ==> !tiles@.contains(t),
{
    let mut i: usize = 0;
    while i < tiles.len()
        invariant
            i <= tiles@.len(),
            forall|j: int| 0 <= j < i ==> tiles@[j] != t,
        decreases tiles@.len() - i,
    {
        if tiles[i] == t {
            return Some(i);
        }
        i = i + 1;
    }
    None
}

/// Tiles held in hand (not in open melds).
#[derive(Debug, Clone, PartialEq, Eq)]
pub struct Concealed {
    pub tiles: Vec<Tile>,
}

impl View for Concealed {
    type V = Seq<Tile>;

    open spec fn view(&self) -> Seq<Tile> {
        self.tiles@
    }
}

impl Concealed {
    pub fn from_tiles(tiles: Vec<Tile>) -> (c: Concealed)
        ensures
            c@ == tiles@,
    {
        Concealed { tiles }
    }

    pub fn tiles(&self) -> (r: &[Tile])
        ensures
            r@ == self@,
    {
        self.tiles.as_slice()
    }

    pub fn len(&self) -> (n: usize)
        ensures
            n == self@.len(),
    {
        self.tiles.len()
    }

    pub fn contains(&self, t: Tile) -> (b: bool)
        ensures
            b == self@.contains(t),
    {
        find_tile(self.tiles.as_slice(), t).is_some()
    }

    pub fn push(&mut self, t: Tile)
        ensures
            final(self)@ == old(self)@.push(t),
    {
        self.tiles.push(t);
    }

    /// Takes one copy of exactly `tile` out of the hand.
    pub fn remove(&mut self, tile: Tile) -> (r: Result<(), Error>)
        ensures
            r is Ok <==> old(self)@.contains(tile),
            r is Ok ==> final(self)@ == remove_first(old(self)@, tile),
            r is Ok ==> final(self)@.to_multiset() == old(self)@.to_multiset().remove(tile),
            r is Err ==> *final(self) == *old(self),
            r matches Err(e) ==> e == (Error::TileNotInHand { tile }),
    {
        match find_tile(self.tiles.as_slice(), tile) {
            Some(i) => {
                proof {
                    lemma_remove_first_at(self.tiles@, tile, i as int);
                }
                self.tiles.remove(i);
                Ok(())
            },
            None => Err(Error::TileNotInHand { tile }),
        }
    }

    /// Puts the hand into display order.
    pub fn sort(&mut self)
        ensures
            sorted(final(self)@),
            final(self)@.to_multiset() == old(self)@.to_multiset(),
            final(self)@.len() == old(self)@.len(),
    {
        sort_tiles(&mut self.tiles);
    }
}

/// The kinds of open (or declared) melds.
#[derive(Debug, Clone, Copy, PartialEq, Eq, Structural)]
pub enum MeldKind {
    Chi,
    Pon,
    OpenKan,
    ClosedKan,
}

/// A called or declared set laid on the table.
#[derive(Debug, Clone, PartialEq, Eq)]
pub struct Meld {
    pub kind: MeldKind,
    pub tiles: Vec<Tile>,
    /// The tile claimed from another seat (none for a closed kan).
    pub called: Option<Tile>,
}

/// Three tiles of one suit whose ranks are three consecutive numbers (in any order).
pub open spec fn chi_shape(tiles: Seq<Tile>) -> bool {
    &&& tiles.len() == 3
    &&& tile_suit(tiles[0]) is Some
    &&& tile_suit(tiles[1]) == tile_suit(tiles[0])
    &&& tile_suit(tiles[2]) == tile_suit(tiles[0])
    &&& {
        let a = tile_rank(tiles[0])->0 as int;
        let b = tile_rank(tiles[1])->0 as int;
        let c = tile_rank(tiles[2])->0 as int;
        let lo = if a <= b && a <= c { a } else if b <= c { b } else { c };
        let hi = if a >= b && a >= c { a } else if b >= c { b } else { c };
        &&& a != b
        &&& b != c
        &&& a != c
        &&& hi - lo == 2
    }
}

/// All tiles show the same face as `t` (red fives count as fives).
pub open spec fn all_match(tiles: Seq<Tile>, t: Tile) -> bool {
    forall|i: int| 0 <= i < tiles.len() ==> tile_identity(#[trigger] tiles[i]) == tile_identity(t)
}

/// Some tile of `tiles` shows the same face as `t`.
pub open spec fn any_match(tiles: Seq<Tile>, t: Tile) -> bool {
    exists|i: int| 0 <= i < tiles.len() && tile_identity(#[trigger] tiles[i]) == tile_identity(t)
}

/// Whether three tiles form a valid chi run (same suit, consecutive ranks).
pub fn is_chi_shape(tiles: [Tile; 3]) -> (b: bool)
    ensures
        b == chi_shape(tiles@),
{
    let s0 = tiles[0].suit();
    if s0.is_none() || tiles[1].suit() != s0 || tiles[2].suit() != s0 {
        return false;
    }
    let a = match tiles[0].rank() {
        Some(r) => r,
        None => 0,
    };
    let b = match tiles[1].rank() {
        Some(r) => r,
        None => 0,
    };
    let c = match tiles[2].rank() {
        Some(r) => r,
        None => 0,
    };
    let lo = if a <= b && a <= c {
        a
    } else if b <= c {
        b
    } else {
        c
    };
    let hi = if a >= b && a >= c {
        a
    } else if b >= c {
        b
    } else {
        c
    };
    a != b && b != c && a != c && hi - lo == 2
}

fn all_match_exec(tiles: &[Tile], t: Tile) -> (b: bool)
    ensures
        b == all_match(tiles@, t),
{
    let mut i: usize = 0;
    while i < tiles.len()
        invariant
            i <= tiles@.len(),
            forall|j: int| 0 <= j < i ==> tile_identity(#[trigger] tiles@[j]) == tile_identity(t),
        decreases tiles@.len() - i,
    {
        if !tiles[i].matches_identity(t) {
            return false;
        }
        i = i + 1;
    }
    true
}

fn any_match_exec(tiles: &[Tile], t: Tile) -> (b: bool)
    ensures
        b == any_match(tiles@, t),
{
    let mut i: usize = 0;
    while i < tiles.len()
        invariant
            i <= tiles@.len(),
            forall|j: int| 0 <= j < i ==> tile_identity(#[trigger] tiles@[j]) != tile_identity(t),
        decreases tiles@.len() - i,
    {
        if tiles[i].matches_identity(t) {
            return true;
        }
        i = i + 1;
    }
    false
}

impl Meld {
    /// A chi: a run of three in one suit that includes the claimed tile.
    pub fn chi(tiles: [Tile; 3], called: Tile) -> (r: Result<Meld, Error>)
        ensures
            r is Ok <==> chi_shape(tiles@) && any_match(tiles@, called),
            r matches Ok(m) ==> m.kind == MeldKind::Chi && m.tiles@ == tiles@ && m.called == Some(called),
            r matches Err(e) ==> e == (Error::InvalidMeld { kind: MeldKind::Chi }),
    {
        if is_chi_shape(tiles) && any_match_exec(tiles.as_slice(), called) {
            Ok(Meld { kind: MeldKind::Chi, tiles: copy_tiles(tiles.as_slice()), called: Some(called) })
        } else {
            Err(Error::InvalidMeld { kind: MeldKind::Chi })
        }
    }

    /// A pon: three tiles of the claimed face.
    pub fn pon(tiles: [Tile; 3], called: Tile) -> (r: Result<Meld, Error>)
        ensures
            r is Ok <==> all_match(tiles@, called),
            r matches Ok(m) ==> m.kind == MeldKind::Pon && m.tiles@ == tiles@ && m.called == Some(called),
            r matches Err(e) ==> e == (Error::InvalidMeld { kind: MeldKind::Pon }),
    {
        if all_match_exec(tiles.as_slice(), called) {
            Ok(Meld { kind: MeldKind::Pon, tiles: copy_tiles(tiles.as_slice()), called: Some(called) })
        } else {
            Err(Error::InvalidMeld { kind: MeldKind::Pon })
        }
    }

    /// An open kan: four tiles of the claimed face.
    pub fn open_kan(tiles: [Tile; 4], called: Tile) -> (r: Result<Meld, Error>)
        ensures
            r is Ok <==> all_match(tiles@, called),
            r matches Ok(m) ==> m.kind == MeldKind::OpenKan && m.tiles@ == tiles@ && m.called == Some(called),
            r matches Err(e) ==> e == (Error::InvalidMeld { kind: MeldKind::OpenKan }),
    {
        if all_match_exec(tiles.as_slice(), called) {
            Ok(Meld { kind: MeldKind::OpenKan, tiles: copy_tiles(tiles.as_slice()), called: Some(called) })
        } else {
            Err(Error::InvalidMeld { kind: MeldKind::OpenKan })
        }
    }

    /// A closed kan: four concealed tiles of one face.
    pub fn closed_kan(tiles: [Tile; 4]) -> (r: Result<Meld, Error>)
        ensures
            r is Ok <==> all_match(tiles@, tiles[0]),
            r matches Ok(m) ==> m.kind == MeldKind::ClosedKan && m.tiles@ == tiles@ && m.called is None,
            r matches Err(e) ==> e == (Error::InvalidMeld { kind: MeldKind::ClosedKan }),
    {
        if all_match_exec(tiles.as_slice(), tiles[0]) {
            Ok(Meld { kind: MeldKind::ClosedKan, tiles: copy_tiles(tiles.as_slice()), called: None })
        } else {
            Err(Error::InvalidMeld { kind: MeldKind::ClosedKan })
        }
    }

    pub fn kind(&self) -> (k: MeldKind)
        ensures
            k == self.kind,
    {
        self.kind
    }

    pub fn tiles(&self) -> (r: &[Tile])
        ensures
            r@ == self.tiles@,
    {
        self.tiles.as_slice()
    }

    pub fn called(&self) -> (r: Option<Tile>)
        ensures
            r == self.called,
    {
        self.called
    }

    /// An identical meld.
    pub fn duplicate(&self) -> (m: Meld)
        ensures
            m.kind == self.kind,
            m.tiles@ == self.tiles@,
            m.called == self.called,
    {
        Meld { kind: self.kind, tiles: copy_tiles(self.tiles.as_slice()), called: self.called }
    }
}

/// An owned copy of a tile slice.
pub fn copy_tiles(tiles: &[Tile]) -> (v: Vec<Tile>)
    ensures
        v@ == tiles@,
{
    let mut v: Vec<Tile> = Vec::new();
    let mut i: usize = 0;
    while i < tiles.len()
        invariant
            i <= tiles@.len(),
            v@ == tiles@.take(i as int),
        decreases tiles@.len() - i,
    {
        v.push(tiles[i]);
        i = i + 1;
        assert(v@ =~= tiles@.take(i as int));
    }
    assert(tiles@.take(tiles@.len() as int) =~= tiles@);
    v
}

/// Number of tiles laid out in a list of melds.
pub open spec fn meld_tile_count(ms: Seq<Meld>) -> nat
    decreases ms.len(),
{
    if ms.len() == 0 {
        0
    } else {
        meld_tile_count(ms.drop_last()) + ms.last().tiles@.len()
    }
}

/// A seat's hand: concealed tiles plus open melds.
#[derive(Debug, Clone, PartialEq, Eq)]
pub struct Hand {
    pub concealed: Concealed,
    pub melds: Vec<Meld>,
}

/// Total tiles a hand holds.
pub open spec fn hand_total(h: Hand) -> nat {
    h.concealed@.len() + meld_tile_count(h.melds@)
}

/// Sizes a hand of the engine stays within: at most 136 concealed tiles (a whole set), at
/// most four melds, each of one to four tiles.
pub open spec fn hand_sizes_ok(h: Hand) -> bool {
    &&& h.concealed@.len() <= 136
    &&& h.melds@.len() <= 4
    &&& forall|i: int| 0 <= i < h.melds@.len() ==> 1 <= (#[trigger] h.melds@[i]).tiles@.len() <= 4
}

/// A hand that play can reach and the rules evaluate: within the engine's sizes, with at most
/// fifteen concealed tiles.
pub open spec fn hand_play_ok(h: Hand) -> bool {
    hand_sizes_ok(h) && h.concealed@.len() <= 15
}

/// A hand shape the engine accepts: at most four melds and at most fourteen concealed tiles.
pub open spec fn hand_shape_ok(concealed: nat, melds: nat) -> bool {
    melds <= 4 && concealed <= 14
}

impl Hand {
    pub fn new(concealed: Concealed, melds: Vec<Meld>) -> (r: Result<Hand, Error>)
        ensures
            r is Ok <==> hand_shape_ok(concealed@.len(), melds@.len()),
            r matches Ok(h) ==> h.concealed@ == concealed@ && h.melds@ == melds@,
            r matches Err(e) ==> e == (Error::InvalidHandShape {
                concealed: concealed@.len() as usize,
                melds: melds@.len() as usize,
            }),
    {
        if melds.len() <= 4 && concealed.len() <= 14 {
            Ok(Hand { concealed, melds })
        } else {
            let c = concealed.len();
            let m = melds.len();
            Err(Error::InvalidHandShape { concealed: c, melds: m })
        }
    }

    pub fn empty() -> (h: Hand)
        ensures
            h.concealed@ == Seq::<Tile>::empty(),
            h.melds@ == Seq::<Meld>::empty(),
    {
        Hand { concealed: Concealed { tiles: Vec::new() }, melds: Vec::new() }
    }

    pub fn concealed(&self) -> (c: &Concealed)
        ensures
            c == &self.concealed,
    {
        &self.concealed
    }

    pub fn melds(&self) -> (m: &[Meld])
        ensures
            m@ == self.melds@,
    {
        self.melds.as_slice()
    }

    /// Tiles held in total, concealed and in melds.
    pub fn total_tiles(&self) -> (n: usize)
        requires
            hand_total(*self) <= usize::MAX,
        ensures
            n == hand_total(*self),
    {
        let mut total = self.concealed.len();
        let mut i: usize = 0;
        while i < self.melds.len()
            invariant
                i <= self.melds@.len(),
                total == self.concealed@.len() + meld_tile_count(self.melds@.take(i as int)),
                hand_total(*self) <= usize::MAX,
            decreases self.melds@.len() - i,
        {
            proof {
                assert(self.melds@.take(i + 1).drop_last() =~= self.melds@.take(i as int));
                lemma_meld_count_prefix_le(self.melds@, i + 1);
            }
            total = total + self.melds[i].tiles.len();
            i = i + 1;
        }
        proof {
            assert(self.melds@.take(self.melds@.len() as int) =~= self.melds@);
        }
        total
    }

    /// An identical, independent hand.
    pub fn duplicate(&self) -> (h: Hand)
        ensures
            h.concealed@ == self.concealed@,
            h.melds@.len() == self.melds@.len(),
            forall|i: int|
                0 <= i < self.melds@.len() ==> (#[trigger] h.melds@[i]).kind == self.melds@[i].kind
                    && h.melds@[i].tiles@ == self.melds@[i].tiles@ && h.melds@[i].called
                    == self.melds@[i].called,
            hand_total(h) == hand_total(*self),
    {
        let mut melds: Vec<Meld> = Vec::new();
        let mut i: usize = 0;
        while i < self.melds.len()
            invariant
                i <= self.melds@.len(),
                melds@.len() == i,
                forall|k: int|
                    0 <= k < i ==> (#[trigger] melds@[k]).kind == self.melds@[k].kind
                        && melds@[k].tiles@ == self.melds@[k].tiles@ && melds@[k].called
                        == self.melds@[k].called,
            decreases self.melds@.len() - i,
        {
            melds.push(self.melds[i].duplicate());
            i = i + 1;
        }
        let h = Hand {
            concealed: Concealed { tiles: copy_tiles(self.concealed.tiles.as_slice()) },
            melds,
        };
        proof {
            lemma_meld_count_same(h.melds@, self.melds@);
        }
        h
    }

    /// Takes every tile of `tiles` out of the concealed hand, or nothing when one is missing.
    pub fn remove_all(&mut self, tiles: &[Tile]) -> (r: Result<(), Error>)
        ensures
            tiles@.to_multiset().subset_of(old(self).concealed@.to_multiset()) ==> r is Ok,
            r is Ok ==> final(self).concealed@.to_multiset().add(tiles@.to_multiset()) == old(self).concealed@.to_multiset(),
            r is Ok ==> final(self).concealed@.len() + tiles@.len() == old(self).concealed@.len(),
            r is Ok ==> final(self).melds@ == old(self).melds@,
            r is Err ==> *final(self) == *old(self),
    {
        broadcast use vstd::multiset::group_multiset_axioms;
        let mut copy = copy_tiles(self.concealed.tiles.as_slice());
        let ghost orig = self.concealed@;
        let mut i: usize = 0;
        while i < tiles.len()
            invariant
                i <= tiles@.len(),
                orig == self.concealed@,
                copy@.to_multiset().add(tiles@.take(i as int).to_multiset()) == orig.to_multiset(),
                copy@.len() + i == orig.len(),
            decreases tiles@.len() - i,
        {
            let t = tiles[i];
            proof {
                assert(tiles@.take(i + 1) =~= tiles@.take(i as int).push(t));
                if tiles@.to_multiset().subset_of(orig.to_multiset()) {
                    lemma_prefix_sub(tiles@, i + 1);
                    assert(tiles@.take(i + 1).to_multiset().count(t) <= tiles@.to_multiset().count(t));
                    assert(copy@.to_multiset().count(t) > 0);
                }
            }
            match find_tile(copy.as_slice(), t) {
                Some(k) => {
                    let ghost before = copy@;
                    copy.remove(k);
                    proof {
                        assert(before.remove(k as int).to_multiset() =~= before.to_multiset().remove(t));
                        assert(copy@.to_multiset().add(tiles@.take(i + 1).to_multiset()) =~= orig.to_multiset());
                    }
                },
                None => {
                    proof {
                        assert(!tiles@.to_multiset().subset_of(orig.to_multiset()));
                    }
                    return Err(Error::TileNotInHand { tile: t });
                },
            }
            i = i + 1;
        }
        proof {
            assert(tiles@.take(tiles@.len() as int) =~= tiles@);
        }
        self.concealed = Concealed { tiles: copy };
        Ok(())
    }

    pub fn push_concealed(&mut self, t: Tile)
        ensures
            final(self).concealed@ == old(self).concealed@.push(t),
            final(self).melds@ == old(self).melds@,
    {
        self.concealed.push(t);
    }

    pub fn remove_concealed(&mut self, t: Tile) -> (r: Result<(), Error>)
        ensures
            r is Ok <==> old(self).concealed@.contains(t),
            r is Ok ==> final(self).concealed@ == remove_first(old(self).concealed@, t),
            r is Ok ==> final(self).concealed@.to_multiset() == old(self).concealed@.to_multiset().remove(t),
            r is Err ==> *final(self) == *old(self),
            r matches Err(e) ==> e == (Error::TileNotInHand { tile: t }),
            final(self).melds@ == old(self).melds@,
    {
        self.concealed.remove(t)
    }

    pub fn sort_concealed(&mut self)
        ensures
            sorted(final(self).concealed@),
            final(self).concealed@.to_multiset() == old(self).concealed@.to_multiset(),
            final(self).concealed@.len() == old(self).concealed@.len(),
            final(self).melds@ == old(self).melds@,
    {
        self.concealed.sort();
    }

    pub fn set_concealed(&mut self, c: Concealed)
        ensures
            final(self).concealed@ == c@,
            final(self).melds@ == old(self).melds@,
    {
        self.concealed = c;
    }

    pub fn push_meld(&mut self, m: Meld)
        ensures
            final(self).concealed@ == old(self).concealed@,
            final(self).melds@ == old(self).melds@.push(m),
    {
        self.melds.push(m);
    }

    pub fn replace_meld(&mut self, i: usize, m: Meld)
        requires
            i < old(self).melds@.len(),
        ensures
            final(self).concealed@ == old(self).concealed@,
            final(self).melds@ == old(self).melds@.update(i as int, m),
    {
        self.melds.set(i, m);
    }
}

/// The tiles of a prefix are among the tiles of the whole.
pub proof fn lemma_prefix_sub(s: Seq<Tile>, k: int)
    requires
        0 <= k <= s.len(),
    ensures
        s.take(k).to_multiset().subset_of(s.to_multiset()),
{
    broadcast use vstd::multiset::group_multiset_axioms;
    vstd::seq_lib::lemma_multiset_commutative(s.take(k), s.skip(k));
    assert(s.take(k) + s.skip(k) =~= s);
}

/// Meld lists with the same tile counts per meld hold the same number of tiles.
pub proof fn lemma_meld_count_same(a: Seq<Meld>, b: Seq<Meld>)
    requires
        a.len() == b.len(),
        forall|i: int| 0 <= i < a.len() ==> (#[trigger] a[i]).tiles@.len() == b[i].tiles@.len(),
    ensures
        meld_tile_count(a) == meld_tile_count(b),
    decreases a.len(),
{
    if a.len() > 0 {
        lemma_meld_count_same(a.drop_last(), b.drop_last());
        assert(a.last().tiles@.len() == b.last().tiles@.len());
    }
}

/// The meld tile count of a prefix never exceeds that of the whole list.
pub proof fn lemma_meld_count_prefix_le(ms: Seq<Meld>, k: int)
    requires
        0 <= k <= ms.len(),
    ensures
        meld_tile_count(ms.take(k)) <= meld_tile_count(ms),
    decreases ms.len() - k,
{
    if k < ms.len() {
        lemma_meld_count_prefix_le(ms, k + 1);
        assert(ms.take(k + 1).drop_last() =~= ms.take(k));
    } else {
        assert(ms.take(k) =~= ms);
    }
}

/// Whether each seat holds a freshly dealt hand (14 tiles for the dealer, 13 for the others).
pub open spec fn deal_counts_ok(hands: Seq<Hand>, dealer: int) -> bool {
    forall|seat: int|
        0 <= seat < 4 ==> hand_total(#[trigger] hands[seat]) == if seat == dealer {
            DEALER_HAND_SIZE as nat
        } else {
            NON_DEALER_HAND_SIZE as nat
        }
}

/// Checks the tile counts of a fresh deal.
pub fn validate_deal_counts(hands: &[Hand; 4], dealer: usize) -> (r: Result<(), Error>)
    requires
        forall|seat: int| 0 <= seat < 4 ==> hand_total(#[trigger] hands@[seat]) <= usize::MAX,
    ensures
        r is Ok <==> deal_counts_ok(hands@, dealer as int),
{
    let mut seat: usize = 0;
    while seat < 4
        invariant
            seat <= 4,
            forall|s: int| 0 <= s < 4 ==> hand_total(#[trigger] hands@[s]) <= usize::MAX,
            forall|s: int|
                0 <= s < seat ==> hand_total(#[trigger] hands@[s]) == if s == dealer {
                    DEALER_HAND_SIZE as nat
                } else {
                    NON_DEALER_HAND_SIZE as nat
                },
        decreases 4 - seat,
    {
        let expected = if seat == dealer {
            DEALER_HAND_SIZE
        } else {
            NON_DEALER_HAND_SIZE
        };
        let actual = hands[seat].total_tiles();
        if actual != expected {
            return Err(Error::InvalidDealCounts { seat, expected, actual });
        }
        seat = seat + 1;
    }
    Ok(())
}

} // verus!
