//! Claiming discards (chi, pon, open kan), closed kans and added kans.

use vstd::prelude::*;

use crate::action::Action;
use crate::error::Error;
use crate::hand::{Concealed, Hand, Meld, MeldKind, all_match, any_match, chi_shape, copy_tiles, find_tile, is_chi_shape, lemma_prefix_sub, remove_first};
use crate::tile::{Suit, Tile, numbered_tile, tile_identity, tile_rank, tile_suit};

verus! {

broadcast use vstd::seq_lib::group_to_multiset_ensures;

/// The three calls another seat's discard can be claimed with.
#[derive(Debug, Clone, Copy, PartialEq, Eq, Structural)]
pub enum CallKind {
    Chi,
    Pon,
    OpenKan,
}

/// Where the claimed tile sits in a chi run.
#[derive(Debug, Clone, Copy, PartialEq, Eq, Structural)]
pub enum ChiPosition {
    /// The claimed tile is the lowest of the run.
    Left,
    Middle,
    /// The claimed tile is the highest of the run.
    Right,
}

/// A call ready to be laid down: the meld and the concealed tiles it takes.
#[derive(Debug, Clone, PartialEq, Eq)]
pub struct ResolvedCall {
    pub kind: CallKind,
    pub meld: Meld,
    pub remove_from_concealed: Vec<Tile>,
}

pub open spec fn next_seat_of(seat: int) -> int {
    (seat + 1) % 4
}

/// The seat allowed to chi a discard: the one after the discarder.
pub fn kamicha(discarder: usize) -> (s: usize)
    requires
        discarder < 4,
    ensures
        s == next_seat_of(discarder as int),
{
    (discarder + 1) % 4
}

/// The tiles of `s` showing the face of `t`, in order.
pub open spec fn same_face(s: Seq<Tile>, t: Tile) -> Seq<Tile>
    decreases s.len(),
{
    if s.len() == 0 {
        s
    } else if s.last().kind == t.kind {
        same_face(s.drop_last(), t).push(s.last())
    } else {
        same_face(s.drop_last(), t)
    }
}

pub proof fn lemma_same_face_members(s: Seq<Tile>, t: Tile)
    ensures
        forall|i: int| 0 <= i < same_face(s, t).len() ==> (#[trigger] same_face(s, t)[i]).kind == t.kind,
        forall|i: int| 0 <= i < same_face(s, t).len() ==> s.contains(#[trigger] same_face(s, t)[i]),
        same_face(s, t).len() <= s.len(),
    decreases s.len(),
{
    if s.len() > 0 {
        lemma_same_face_members(s.drop_last(), t);
        assert forall|i: int| 0 <= i < same_face(s, t).len() implies s.contains(
            #[trigger] same_face(s, t)[i],
        ) by {
            let f = same_face(s.drop_last(), t);
            if i < f.len() {
                assert(s.drop_last().contains(f[i]));
                let k = choose|k: int| 0 <= k < s.drop_last().len() && s.drop_last()[k] == f[i];
                assert(s[k] == f[i]);
            } else {
                assert(s[s.len() - 1] == same_face(s, t)[i]);
            }
        }
    }
}

/// The first `k` tiles of a face are among the tiles of the hand.
pub proof fn lemma_same_face_sub(s: Seq<Tile>, t: Tile, k: int)
    requires
        0 <= k <= same_face(s, t).len(),
    ensures
        same_face(s, t).take(k).to_multiset().subset_of(s.to_multiset()),
{
    broadcast use vstd::multiset::group_multiset_axioms;
    lemma_same_face_all_sub(s, t);
    lemma_prefix_sub(same_face(s, t), k);
}

proof fn lemma_same_face_all_sub(s: Seq<Tile>, t: Tile)
    ensures
        same_face(s, t).to_multiset().subset_of(s.to_multiset()),
    decreases s.len(),
{
    broadcast use vstd::multiset::group_multiset_axioms;
    if s.len() > 0 {
        lemma_same_face_all_sub(s.drop_last(), t);
        assert(s =~= s.drop_last().push(s.last()));
    }
}

/// The concealed tiles showing the face of `called`, in hand order.
fn matching_tiles(tiles: &[Tile], called: Tile) -> (v: Vec<Tile>)
    ensures
        v@ == same_face(tiles@, called),
{
    let mut v: Vec<Tile> = Vec::new();
    let mut i: usize = 0;
    while i < tiles.len()
        invariant
            i <= tiles@.len(),
            v@ == same_face(tiles@.take(i as int), called),
        decreases tiles@.len() - i,
    {
        proof {
            assert(tiles@.take(i + 1).drop_last() =~= tiles@.take(i as int));
        }
        if tiles[i].matches_identity(called) {
            v.push(tiles[i]);
        }
        i = i + 1;
    }
    proof {
        assert(tiles@.take(tiles@.len() as int) =~= tiles@);
    }
    v
}

/// Two concealed tiles of the discarded face.
pub fn can_pon(concealed: &Concealed, called: Tile) -> (b: bool)
    ensures
        b == (same_face(concealed@, called).len() >= 2),
{
    matching_tiles(concealed.tiles.as_slice(), called).len() >= 2
}

/// Three concealed tiles of the discarded face.
pub fn can_open_kan(concealed: &Concealed, called: Tile) -> (b: bool)
    ensures
        b == (same_face(concealed@, called).len() >= 3),
{
    matching_tiles(concealed.tiles.as_slice(), called).len() >= 3
}

/// `s[i]` is the first tile of its face in `s`.
pub open spec fn first_of_face(s: Seq<Tile>, i: int) -> bool {
    forall|j: int| 0 <= j < i ==> (#[trigger] s[j]).kind != s[i].kind
}

/// For each face held four times among the first `n` tiles, its first tile, in order.
pub open spec fn kan_faces_upto(s: Seq<Tile>, n: int) -> Seq<Tile>
    decreases n,
{
    if n <= 0 {
        Seq::empty()
    } else if first_of_face(s, n - 1) && same_face(s, s[n - 1]).len() >= 4 {
        kan_faces_upto(s, n - 1).push(s[n - 1])
    } else {
        kan_faces_upto(s, n - 1)
    }
}

/// One tile of each face held four times in the concealed hand (its first copy), in hand order.
pub fn closed_kan_options(concealed: &Concealed) -> (v: Vec<Tile>)
    ensures
        v@ == kan_faces_upto(concealed@, concealed@.len() as int),
{
    let tiles = concealed.tiles.as_slice();
    let mut v: Vec<Tile> = Vec::new();
    let mut i: usize = 0;
    while i < tiles.len()
        invariant
            i <= tiles@.len(),
            tiles@ == concealed@,
            v@ == kan_faces_upto(tiles@, i as int),
        decreases tiles@.len() - i,
    {
        let t = tiles[i];
        let mut first = true;
        let mut j: usize = 0;
        while j < i
            invariant
                j <= i < tiles@.len(),
                t == tiles@[i as int],
                first == forall|k: int| 0 <= k < j ==> (#[trigger] tiles@[k]).kind != t.kind,
            decreases i - j,
        {
            if tiles[j].kind == t.kind {
                first = false;
            }
            j = j + 1;
        }
        if first && matching_tiles(tiles, t).len() >= 4 {
            v.push(t);
        }
        i = i + 1;
    }
    v
}

/// The chi window starting at rank `low` of `suit`, taken with `called`: the called face is
/// the claimed tile itself, the other two must be plain tiles in hand.
pub open spec fn chi_window(s: Seq<Tile>, called: Tile, suit: Suit, low: int) -> Option<Seq<Tile>> {
    let w = Seq::new(3, |k: int| numbered_tile(suit, (low + k) as u8));
    if forall|k: int| 0 <= k < 3 && (#[trigger] w[k]).kind != called.kind ==> s.contains(w[k]) {
        Some(Seq::new(3, |k: int| if w[k].kind == called.kind { called } else { w[k] }))
    } else {
        None
    }
}

/// Runs through `called` in order low, middle, high window that fit in ranks 1..9 and
/// whose other two tiles are in hand.
pub open spec fn chi_windows(s: Seq<Tile>, called: Tile) -> Seq<Seq<Tile>> {
    match (tile_suit(called), tile_rank(called)) {
        (Some(suit), Some(r)) => {
            let opt = |low: int|
                if 1 <= low && low + 2 <= 9 {
                    chi_window(s, called, suit, low)
                } else {
                    None
                };
            let a = opt(r - 2);
            let b = opt(r - 1);
            let c = opt(r as int);
            (if a is Some {
                seq![a->0]
            } else {
                Seq::empty()
            }) + (if b is Some {
                seq![b->0]
            } else {
                Seq::empty()
            }) + (if c is Some {
                seq![c->0]
            } else {
                Seq::empty()
            })
        },
        _ => Seq::empty(),
    }
}

fn pick_chi_tiles(tiles: &[Tile], called: Tile, suit: Suit, low: u8) -> (r: Option<[Tile; 3]>)
    requires
        1 <= low <= 7,
    ensures
        r is Some <==> chi_window(tiles@, called, suit, low as int) is Some,
        r matches Some(a) ==> a@ == chi_window(tiles@, called, suit, low as int)->0,
{
    let ghost w = Seq::new(3, |k: int| numbered_tile(suit, (low + k) as u8));
    let t0 = Tile::numbered(suit, low);
    let t1 = Tile::numbered(suit, low + 1);
    let t2 = Tile::numbered(suit, low + 2);
    assert(w[0] == t0 && w[1] == t1 && w[2] == t2);
    let ok0 = t0.kind == called.kind || find_tile(tiles, t0).is_some();
    let ok1 = t1.kind == called.kind || find_tile(tiles, t1).is_some();
    let ok2 = t2.kind == called.kind || find_tile(tiles, t2).is_some();
    if ok0 && ok1 && ok2 {
        let p0 = if t0.kind == called.kind { called } else { t0 };
        let p1 = if t1.kind == called.kind { called } else { t1 };
        let p2 = if t2.kind == called.kind { called } else { t2 };
        let a = [p0, p1, p2];
        proof {
            let want = Seq::new(3, |k: int| if w[k].kind == called.kind { called } else { w[k] });
            assert(a@ =~= want);
        }
        Some(a)
    } else {
        proof {
            if !ok0 {
                assert(w[0].kind != called.kind && !tiles@.contains(w[0]));
            } else if !ok1 {
                assert(w[1].kind != called.kind && !tiles@.contains(w[1]));
            } else {
                assert(w[2].kind != called.kind && !tiles@.contains(w[2]));
            }
        }
        None
    }
}

/// The chi actions available on `called`: lower, middle and upper runs, each when its other
/// two tiles are in hand.
pub fn chi_actions(concealed: &Concealed, called: Tile) -> (v: Vec<Action>)
    ensures
        v@.len() == chi_windows(concealed@, called).len(),
        forall|i: int|
            0 <= i < v@.len() ==> (#[trigger] v@[i] matches Action::Chi { tiles } && tiles@
                == chi_windows(concealed@, called)[i]),
{
    let mut actions: Vec<Action> = Vec::new();
    let (suit, rank) = match (called.suit(), called.rank()) {
        (Some(s), Some(r)) => (s, r),
        _ => {
            return actions;
        },
    };
    let tiles = concealed.tiles.as_slice();
    let ghost ws = Seq::<Seq<Tile>>::empty();
    let ghost s = concealed@;
    let ghost opt = |low: int|
        if 1 <= low && low + 2 <= 9 {
            chi_window(s, called, suit, low)
        } else {
            None
        };
    // low = rank - 2
    if rank >= 3 && rank <= 9 {
        if let Some(a) = pick_chi_tiles(tiles, called, suit, rank - 2) {
            actions.push(Action::Chi { tiles: a });
        }
    }
    let ghost n1 = actions@.len();
    proof {
        assert(n1 == (if opt(rank - 2) is Some { 1int } else { 0int }));
    }
    if rank >= 2 && rank <= 8 {
        if let Some(a) = pick_chi_tiles(tiles, called, suit, rank - 1) {
            actions.push(Action::Chi { tiles: a });
        }
    }
    let ghost n2 = actions@.len();
    if rank >= 1 && rank <= 7 {
        if let Some(a) = pick_chi_tiles(tiles, called, suit, rank) {
            actions.push(Action::Chi { tiles: a });
        }
    }
    proof {
        let a = opt(rank - 2);
        let b = opt(rank - 1);
        let c = opt(rank as int);
        let ea = if a is Some { seq![a->0] } else { Seq::empty() };
        let eb = if b is Some { seq![b->0] } else { Seq::empty() };
        let ec = if c is Some { seq![c->0] } else { Seq::empty() };
        assert(chi_windows(s, called) == ea + eb + ec);
        assert(n2 == n1 + eb.len());
        assert forall|i: int| 0 <= i < actions@.len() implies (#[trigger] actions@[i] matches Action::Chi { tiles } && tiles@
            == (ea + eb + ec)[i]) by {
            if i < n1 {
                assert((ea + eb + ec)[i] == ea[i]);
            } else if i < n2 {
                assert((ea + eb + ec)[i] == eb[i - n1]);
            } else {
                assert((ea + eb + ec)[i] == ec[i - n2]);
            }
        }
    }
    actions
}

/// Where `called` sits in the run `tiles`: lowest, middle or highest rank; `None` when it is
/// not part of the run or the tiles are not numbered.
pub open spec fn chi_position_of(called: Tile, tiles: Seq<Tile>) -> Option<ChiPosition> {
    if tile_rank(called) is Some && tile_rank(tiles[0]) is Some && tile_rank(tiles[1]) is Some
        && tile_rank(tiles[2]) is Some && any_match(tiles, called) {
        let c = tile_rank(called)->0 as int;
        let a = tile_rank(tiles[0])->0 as int;
        let b = tile_rank(tiles[1])->0 as int;
        let d = tile_rank(tiles[2])->0 as int;
        let lo = if a <= b && a <= d { a } else if b <= d { b } else { d };
        let hi = if a >= b && a >= d { a } else if b >= d { b } else { d };
        if c == lo {
            Some(ChiPosition::Left)
        } else if c == hi {
            Some(ChiPosition::Right)
        } else {
            Some(ChiPosition::Middle)
        }
    } else {
        None
    }
}

/// Where the claimed tile sits in a chi run.
pub fn chi_position(called: Tile, tiles: [Tile; 3]) -> (p: Option<ChiPosition>)
    ensures
        p == chi_position_of(called, tiles@),
{
    let (c, a, b, d) = match (called.rank(), tiles[0].rank(), tiles[1].rank(), tiles[2].rank()) {
        (Some(c), Some(a), Some(b), Some(d)) => (c, a, b, d),
        _ => {
            return None;
        },
    };
    let hit = tiles[0].matches_identity(called) || tiles[1].matches_identity(called)
        || tiles[2].matches_identity(called);
    if !hit {
        proof {
            assert forall|i: int| 0 <= i < 3 implies tile_identity(#[trigger] tiles@[i]) != tile_identity(called) by {
            }
        }
        return None;
    }
    let lo = if a <= b && a <= d {
        a
    } else if b <= d {
        b
    } else {
        d
    };
    let hi = if a >= b && a >= d {
        a
    } else if b >= d {
        b
    } else {
        d
    };
    if c == lo {
        Some(ChiPosition::Left)
    } else if c == hi {
        Some(ChiPosition::Right)
    } else {
        Some(ChiPosition::Middle)
    }
}

/// Pon and kan outrank chi.
pub fn call_priority(kind: CallKind) -> (p: u8)
    ensures
        p == (if kind == CallKind::Chi { 1u8 } else { 2u8 }),
{
    match kind {
        CallKind::OpenKan | CallKind::Pon => 2,
        CallKind::Chi => 1,
    }
}

/// Turn distance from the discarder to `seat` (1 for the next seat).
pub fn seat_priority(discarder: usize, seat: usize) -> (p: u8)
    requires
        discarder < 4,
        seat < 4,
    ensures
        p == (seat + 4 - discarder) % 4,
{
    ((seat + 4 - discarder) % 4) as u8
}

/// Three tiles of one suit whose sorted ranks are consecutive.
pub open spec fn valid_chi_sequence(tiles: Seq<Tile>) -> bool {
    chi_shape(tiles)
}

/// Pons whose face has a fourth tile in the concealed hand, by meld index.
pub open spec fn kakan_allowed(h: Hand, i: int) -> bool {
    &&& 0 <= i < h.melds@.len()
    &&& h.melds@[i].kind == MeldKind::Pon
    &&& h.melds@[i].tiles@.len() > 0
    &&& same_face(h.concealed@, h.melds@[i].tiles@[0]).len() >= 1
}

/// Meld indices of the open pons that can be upgraded with a concealed fourth tile.
pub open spec fn kakan_indices_upto(h: Hand, n: int) -> Seq<usize>
    decreases n,
{
    if n <= 0 {
        Seq::empty()
    } else if kakan_allowed(h, n - 1) {
        kakan_indices_upto(h, n - 1).push((n - 1) as usize)
    } else {
        kakan_indices_upto(h, n - 1)
    }
}

/// Whether the meld at `meld_index` is a pon whose fourth tile is concealed.
pub fn can_kakan(hand: &Hand, meld_index: usize) -> (b: bool)
    ensures
        b == kakan_allowed(*hand, meld_index as int),
{
    if meld_index >= hand.melds.len() {
        return false;
    }
    let meld = &hand.melds[meld_index];
    if meld.kind != MeldKind::Pon || meld.tiles.len() == 0 {
        return false;
    }
    matching_tiles(hand.concealed.tiles.as_slice(), meld.tiles[0]).len() >= 1
}

/// Indices of the open pons that can be upgraded to a kan (kakan).
pub fn kakan_options(hand: &Hand) -> (v: Vec<usize>)
    ensures
        v@ == kakan_indices_upto(*hand, hand.melds@.len() as int),
{
    let mut v: Vec<usize> = Vec::new();
    let mut i: usize = 0;
    while i < hand.melds.len()
        invariant
            i <= hand.melds@.len(),
            v@ == kakan_indices_upto(*hand, i as int),
        decreases hand.melds@.len() - i,
    {
        if can_kakan(hand, i) {
            v.push(i);
        }
        i = i + 1;
    }
    v
}

/// The concealed tile that upgrades the pon at `meld_index`: the first of its face.
pub fn resolve_kakan_tile(hand: &Hand, meld_index: usize) -> (r: Result<Tile, Error>)
    ensures
        r is Ok <==> kakan_allowed(*hand, meld_index as int),
        r matches Ok(t) ==> t == same_face(hand.concealed@, hand.melds@[meld_index as int].tiles@[0])[0],
        r matches Err(e) ==> e matches Error::InvalidCall { kind: CallKind::OpenKan, .. },
{
    if !can_kakan(hand, meld_index) {
        return Err(Error::InvalidCall { kind: CallKind::OpenKan, reason: "cannot kakan" });
    }
    let m = matching_tiles(hand.concealed.tiles.as_slice(), hand.melds[meld_index].tiles[0]);
    Ok(m[0])
}

/// The pon upgraded to an open kan with `tile`.
pub fn upgrade_pon_to_open_kan(pon: &Meld, tile: Tile) -> (r: Result<Meld, Error>)
    ensures
        r is Ok <==> (pon.kind == MeldKind::Pon && pon.tiles@.len() == 3 && all_match(
            pon.tiles@.push(tile),
            pon.tiles@[0],
        )),
        r matches Ok(m) ==> m.kind == MeldKind::OpenKan && m.tiles@ == pon.tiles@.push(tile)
            && m.called == pon.called,
{
    if pon.kind != MeldKind::Pon || pon.tiles.len() != 3 {
        return Err(Error::InvalidMeld { kind: MeldKind::OpenKan });
    }
    let t0 = pon.tiles[0];
    let ok = pon.tiles[1].matches_identity(t0) && pon.tiles[2].matches_identity(t0)
        && tile.matches_identity(t0);
    proof {
        let s = pon.tiles@.push(tile);
        if ok {
            assert forall|i: int| 0 <= i < s.len() implies tile_identity(#[trigger] s[i]) == tile_identity(t0) by {
                assert(s[i] == (if i < 3 { pon.tiles@[i] } else { tile }));
            }
        } else {
            if pon.tiles@[1].kind != t0.kind {
                assert(s[1] == pon.tiles@[1]);
            } else if pon.tiles@[2].kind != t0.kind {
                assert(s[2] == pon.tiles@[2]);
            } else {
                assert(s[3] == tile);
            }
        }
    }
    if !ok {
        return Err(Error::InvalidMeld { kind: MeldKind::OpenKan });
    }
    let mut tiles = copy_tiles(pon.tiles.as_slice());
    tiles.push(tile);
    Ok(Meld { kind: MeldKind::OpenKan, tiles, called: pon.called })
}

/// Claims `called` with two concealed tiles of its face.
pub fn resolve_pon(concealed: &Concealed, called: Tile) -> (r: Result<ResolvedCall, Error>)
    ensures
        r is Ok <==> same_face(concealed@, called).len() >= 2,
        r matches Ok(c) ==> c.kind == CallKind::Pon && c.meld.kind == MeldKind::Pon
            && c.remove_from_concealed@ == same_face(concealed@, called).take(2)
            && c.meld.tiles@ == same_face(concealed@, called).take(2).push(called)
            && c.meld.called == Some(called)
            && c.remove_from_concealed@.to_multiset().subset_of(concealed@.to_multiset()),
        r matches Err(e) ==> e matches Error::InvalidCall { kind: CallKind::Pon, .. },
{
    let m = matching_tiles(concealed.tiles.as_slice(), called);
    if m.len() < 2 {
        return Err(Error::InvalidCall { kind: CallKind::Pon, reason: "need two matching concealed tiles" });
    }
    proof {
        lemma_same_face_members(concealed@, called);
    }
    let tiles = [m[0], m[1], called];
    let meld = match Meld::pon(tiles, called) {
        Ok(meld) => meld,
        Err(e) => {
            proof {
                assert forall|i: int| 0 <= i < 3 implies tile_identity(#[trigger] tiles@[i]) == tile_identity(called) by {
                    assert(tiles@[i] == (if i == 0 { m@[0] } else if i == 1 { m@[1] } else { called }));
                }
                assert(false);
            }
            return Err(e);
        },
    };
    let mut remove = Vec::new();
    remove.push(m[0]);
    remove.push(m[1]);
    proof {
        assert(remove@ =~= m@.take(2));
        assert(tiles@ =~= m@.take(2).push(called));
        lemma_same_face_sub(concealed@, called, 2);
    }
    Ok(ResolvedCall { kind: CallKind::Pon, meld, remove_from_concealed: remove })
}

/// Claims `called` with three concealed tiles of its face.
pub fn resolve_open_kan(concealed: &Concealed, called: Tile) -> (r: Result<ResolvedCall, Error>)
    ensures
        r is Ok <==> same_face(concealed@, called).len() >= 3,
        r matches Ok(c) ==> c.kind == CallKind::OpenKan && c.meld.kind == MeldKind::OpenKan
            && c.remove_from_concealed@ == same_face(concealed@, called).take(3)
            && c.meld.tiles@ == same_face(concealed@, called).take(3).push(called)
            && c.meld.called == Some(called)
            && c.remove_from_concealed@.to_multiset().subset_of(concealed@.to_multiset()),
        r matches Err(e) ==> e matches Error::InvalidCall { kind: CallKind::OpenKan, .. },
{
    let m = matching_tiles(concealed.tiles.as_slice(), called);
    if m.len() < 3 {
        return Err(Error::InvalidCall { kind: CallKind::OpenKan, reason: "need three matching concealed tiles" });
    }
    proof {
        lemma_same_face_members(concealed@, called);
    }
    let tiles = [m[0], m[1], m[2], called];
    let meld = match Meld::open_kan(tiles, called) {
        Ok(meld) => meld,
        Err(e) => {
            proof {
                assert forall|i: int| 0 <= i < 4 implies tile_identity(#[trigger] tiles@[i]) == tile_identity(called) by {
                    assert(tiles@[i] == (if i == 0 { m@[0] } else if i == 1 { m@[1] } else if i == 2 { m@[2] } else { called }));
                }
                assert(false);
            }
            return Err(e);
        },
    };
    let mut remove = Vec::new();
    remove.push(m[0]);
    remove.push(m[1]);
    remove.push(m[2]);
    proof {
        assert(remove@ =~= m@.take(3));
        assert(tiles@ =~= m@.take(3).push(called));
        lemma_same_face_sub(concealed@, called, 3);
    }
    Ok(ResolvedCall { kind: CallKind::OpenKan, meld, remove_from_concealed: remove })
}

/// Declares a closed kan of the face of `tile` from four concealed tiles.
pub fn resolve_closed_kan(concealed: &Concealed, tile: Tile) -> (r: Result<Meld, Error>)
    ensures
        r is Ok <==> same_face(concealed@, tile).len() >= 4,
        r matches Ok(m) ==> m.kind == MeldKind::ClosedKan && m.tiles@ == same_face(concealed@, tile).take(4)
            && m.called is None && m.tiles@.to_multiset().subset_of(concealed@.to_multiset()),
        r matches Err(e) ==> e matches Error::InvalidCall { kind: CallKind::OpenKan, .. },
{
    let m = matching_tiles(concealed.tiles.as_slice(), tile);
    if m.len() < 4 {
        return Err(Error::InvalidCall { kind: CallKind::OpenKan, reason: "need four matching concealed tiles for closed kan" });
    }
    proof {
        lemma_same_face_members(concealed@, tile);
    }
    let tiles = [m[0], m[1], m[2], m[3]];
    proof {
        assert(tiles@ =~= m@.take(4));
        lemma_same_face_sub(concealed@, tile, 4);
    }
    match Meld::closed_kan(tiles) {
        Ok(meld) => Ok(meld),
        Err(e) => {
            proof {
                assert forall|i: int| 0 <= i < 4 implies tile_identity(#[trigger] tiles@[i]) == tile_identity(tiles@[0]) by {
                    assert(tiles@[i] == m@[i]);
                }
                assert(false);
            }
            Err(Error::InvalidCall { kind: CallKind::OpenKan, reason: "need four matching concealed tiles for closed kan" })
        },
    }
}

/// The non-claimed tiles of a chi, in run order.
pub open spec fn chi_hand_tiles(tiles: Seq<Tile>, called: Tile) -> Seq<Tile> {
    tiles.filter(|t: Tile| t.kind != called.kind)
}

/// Claims `called` into the run `tiles` with the run's two other tiles from hand.
pub fn resolve_chi(concealed: &Concealed, called: Tile, tiles: [Tile; 3]) -> (r: Result<ResolvedCall, Error>)
    ensures
        r is Ok <==> valid_chi_sequence(tiles@) && any_match(tiles@, called) && (forall|k: int|
            0 <= k < 3 && (#[trigger] tiles@[k]).kind != called.kind ==> concealed@.contains(tiles@[k]))
            && chi_hand_tiles(tiles@, called).len() == 2,
        !valid_chi_sequence(tiles@) ==> r matches Err(Error::InvalidChiSequence { .. }),
        valid_chi_sequence(tiles@) && !any_match(tiles@, called) ==> r matches Err(Error::InvalidCall { kind: CallKind::Chi, .. }),
        r matches Ok(c) ==> c.kind == CallKind::Chi && c.meld.kind == MeldKind::Chi && c.meld.tiles@
            == tiles@ && c.meld.called == Some(called) && c.remove_from_concealed@ == chi_hand_tiles(
            tiles@,
            called,
        ) && c.remove_from_concealed@.to_multiset().subset_of(concealed@.to_multiset())
            && c.remove_from_concealed@.len() == 2,
{
    if !is_chi_shape(tiles) {
        return Err(Error::InvalidChiSequence { tiles });
    }
    let hit = tiles[0].matches_identity(called) || tiles[1].matches_identity(called)
        || tiles[2].matches_identity(called);
    if !hit {
        proof {
            assert forall|i: int| 0 <= i < 3 implies tile_identity(#[trigger] tiles@[i]) != tile_identity(called) by {
            }
        }
        return Err(Error::InvalidCall { kind: CallKind::Chi, reason: "called tile not in meld" });
    }
    // Ranks of a valid run are distinct, so exactly one of the three shows the called face.
    let mut remaining = copy_tiles(concealed.tiles.as_slice());
    let mut remove: Vec<Tile> = Vec::new();
    let mut k: usize = 0;
    while k < 3
        invariant
            k <= 3,
            chi_shape(tiles@),
            any_match(tiles@, called),
            forall|j: int| 0 <= j < k && (#[trigger] tiles@[j]).kind != called.kind ==> concealed@.contains(tiles@[j]),
            forall|j: int, q: int| 0 <= j < remove@.len() && k <= q < 3 ==> #[trigger] remove@[j] != #[trigger] tiles@[q],
            remove@ == tiles@.take(k as int).filter(|t: Tile| t.kind != called.kind),
            remaining@.to_multiset().add(remove@.to_multiset()) == concealed@.to_multiset(),
        decreases 3 - k,
    {
        let t = tiles[k];
        proof {
            reveal(Seq::filter);
            assert(forall|q: int| k < q < 3 ==> tiles@[q] != t) by {
                assert(tile_rank(tiles@[0]) != tile_rank(tiles@[1]));
                assert(tile_rank(tiles@[1]) != tile_rank(tiles@[2]));
                assert(tile_rank(tiles@[0]) != tile_rank(tiles@[2]));
            }
            assert(tiles@.take(k + 1).drop_last() =~= tiles@.take(k as int));
        }
        if !t.matches_identity(called) {
            match find_tile(remaining.as_slice(), t) {
                Some(pos) => {
                    let ghost before = remaining@;
                    remaining.remove(pos);
                    remove.push(t);
                    proof {
                        assert(before.remove(pos as int).to_multiset() =~= before.to_multiset().remove(t));
                        assert(remaining@.to_multiset().add(remove@.to_multiset()) =~= concealed@.to_multiset());
                        assert(concealed@.to_multiset().count(t) > 0);
                    }
                },
                None => {
                    proof {
                        assert(remaining@.to_multiset().count(t) == 0);
                        // t occurs in concealed at most as often as removed copies of it
                        assert(!remove@.contains(t)) by {
                            if remove@.contains(t) {
                                let j = choose|j: int| 0 <= j < remove@.len() && remove@[j] == t;
                                assert(remove@[j] != tiles@[k as int]);
                            }
                        }
                        assert(concealed@.to_multiset().count(t) == 0);
                        assert(!concealed@.contains(t));
                    }
                    return Err(Error::TileNotInHand { tile: t });
                },
            }
        }
        k = k + 1;
    }
    proof {
        assert(tiles@.take(3) =~= tiles@);
    }
    if remove.len() != 2 {
        proof {
            assert(forall|j: int| 0 <= j < 3 && (#[trigger] tiles@[j]).kind != called.kind ==> concealed@.contains(tiles@[j]));
        }
        return Err(Error::InvalidCall { kind: CallKind::Chi, reason: "concealed tiles do not match chii" });
    }
    let meld = match Meld::chi(tiles, called) {
        Ok(m) => m,
        Err(e) => {
            proof {
                assert(false);
            }
            return Err(e);
        },
    };
    Ok(ResolvedCall { kind: CallKind::Chi, meld, remove_from_concealed: remove })
}

} // verus!
