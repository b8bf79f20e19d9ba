//! Pattern yaku read from the standard decompositions (four melds and a pair) of a win.

use vstd::prelude::*;
use vstd::multiset::Multiset;

use crate::hand::{Hand, Meld, MeldKind, copy_tiles, hand_sizes_ok};
use crate::rules::context::WinContext;
use crate::scoring::WinType;
use crate::tile::{
    Dragon, Suit, Tile, TileKind, Wind, numbered_tile, sort_tiles, sorted, tile_key, tile_rank,
    tile_suit,
};

use super::decomp::{SetTiles, enumerate_sets, splitting};
use super::shape::{is_run, is_set, is_triplet, lemma_sorted_adjacent_pair, lemma_sorted_remove};
use super::win::{
    full_hand, pairs_only, terminal_or_honor_kind, tiles_with_win_tile, with_call_tile,
    is_chiitoitsu_hand, all_tiles_in_hand, is_terminal_or_honor,
};

verus! {

broadcast use vstd::seq_lib::group_to_multiset_ensures;

/// One meld of a standard decomposition: a run by suit and lowest rank, or a triplet by tile.
#[derive(Debug, Clone, Copy, PartialEq, Eq)]
pub struct MeldComponent {
    pub sequence: Option<(Suit, u8)>,
    pub triplet: Option<Tile>,
    pub open: bool,
}

/// The tile of least sort key in a non-empty list.
pub open spec fn min_key_tile(s: Seq<Tile>) -> Tile
    decreases s.len(),
{
    if s.len() <= 1 {
        s[0]
    } else if tile_key(s.last()) < tile_key(min_key_tile(s.drop_last())) {
        s.last()
    } else {
        min_key_tile(s.drop_last())
    }
}

/// The component a laid-open meld contributes (a chi without suit contributes none).
pub open spec fn open_component(m: Meld) -> Option<MeldComponent> {
    match m.kind {
        MeldKind::Chi => {
            let t = min_key_tile(m.tiles@);
            if tile_suit(t) is Some && tile_rank(t) is Some {
                Some(
                    MeldComponent {
                        sequence: Some((tile_suit(t)->0, tile_rank(t)->0)),
                        triplet: None,
                        open: true,
                    },
                )
            } else {
                None
            }
        },
        MeldKind::Pon | MeldKind::OpenKan => Some(
            MeldComponent { sequence: None, triplet: Some(m.tiles@[0]), open: true },
        ),
        MeldKind::ClosedKan => Some(
            MeldComponent { sequence: None, triplet: Some(m.tiles@[0]), open: false },
        ),
    }
}

pub open spec fn open_components(ms: Seq<Meld>) -> Seq<MeldComponent>
    decreases ms.len(),
{
    if ms.len() == 0 {
        Seq::empty()
    } else {
        let rest = open_components(ms.drop_last());
        match open_component(ms.last()) {
            Some(c) => rest.push(c),
            None => rest,
        }
    }
}

/// The component of a concealed set.
pub open spec fn set_component(x: SetTiles) -> MeldComponent {
    if is_triplet(x.0, x.1, x.2) {
        MeldComponent { sequence: None, triplet: Some(x.0), open: false }
    } else {
        MeldComponent {
            sequence: Some((tile_suit(x.0)->0, tile_rank(x.0)->0)),
            triplet: None,
            open: false,
        }
    }
}

/// `p` and `l` are a standard decomposition of the concealed tiles with the winning tile:
/// pair `p`, and `l` the sets that the open melds leave to make four.
pub open spec fn split_of(h: Hand, win_tile: Tile, win_type: WinType, p: Tile, l: Seq<SetTiles>) -> bool {
    let m = with_call_tile(h.concealed@, win_tile, win_type).to_multiset();
    let k = open_components(h.melds@).len();
    &&& k <= 4
    &&& m.count(p) >= 2
    &&& splitting(l, m.remove(p).remove(p), (4 - k) as nat)
}

/// The pattern a decomposition is tested for.
#[derive(Debug, Clone, Copy, PartialEq, Eq, Structural)]
pub enum Pattern {
    AllTriplets,
    ThreeColourRun,
    Straight,
    OnePeikou,
    TwoPeikou,
    OutsideWithHonors,
    OutsideTerminals,
    ThreeDragons,
    LittleWinds,
    BigWinds,
}

pub open spec fn comp_has_seq(c: MeldComponent, suit: Suit, r: u8) -> bool {
    c.sequence == Some((suit, r))
}

/// Some component is the run of `suit` from rank `r`.
pub open spec fn has_run(open: Seq<MeldComponent>, sets: Multiset<SetTiles>, suit: Suit, r: u8) -> bool {
    ||| exists|i: int| 0 <= i < open.len() && comp_has_seq(#[trigger] open[i], suit, r)
    ||| exists|x: SetTiles| #[trigger] sets.count(x) > 0 && comp_has_seq(set_component(x), suit, r)
}

/// Some component is the triplet of exactly `t`.
pub open spec fn has_triplet(open: Seq<MeldComponent>, sets: Multiset<SetTiles>, t: Tile) -> bool {
    ||| exists|i: int| 0 <= i < open.len() && (#[trigger] open[i]).triplet == Some(t)
    ||| exists|x: SetTiles| #[trigger] sets.count(x) > 0 && set_component(x).triplet == Some(t)
}

/// A property of components as the evaluators test it.
pub open spec fn comp_prop(pat: Pattern, c: MeldComponent) -> bool {
    match pat {
        Pattern::AllTriplets => c.triplet is Some,
        Pattern::OutsideWithHonors => comp_has_terminal_or_honor(c),
        Pattern::OutsideTerminals => comp_has_numbered_terminal(c),
        _ => true,
    }
}

/// Every component, open or concealed, has the property the pattern asks of it.
pub open spec fn all_comps(pat: Pattern, open: Seq<MeldComponent>, sets: Multiset<SetTiles>) -> bool {
    &&& forall|i: int| 0 <= i < open.len() ==> comp_prop(pat, #[trigger] open[i])
    &&& forall|x: SetTiles| #[trigger] sets.count(x) > 0 ==> comp_prop(pat, set_component(x))
}

pub open spec fn is_honor_kind(k: TileKind) -> bool {
    k is Wind || k is Dragon
}

/// Ranks a run from `r` covers include a terminal.
pub open spec fn run_has_terminal(r: u8) -> bool {
    r == 1 || r + 1 == 1 || r + 2 == 1 || r == 9 || r + 1 == 9 || r + 2 == 9
}

pub open spec fn comp_has_terminal_or_honor(c: MeldComponent) -> bool {
    match c.triplet {
        Some(t) => terminal_or_honor_kind(t.kind),
        None => match c.sequence {
            Some((_, r)) => run_has_terminal(r),
            None => false,
        },
    }
}

pub open spec fn numbered_terminal(t: Tile) -> bool {
    tile_rank(t) == Some(1u8) || tile_rank(t) == Some(9u8)
}

pub open spec fn comp_has_numbered_terminal(c: MeldComponent) -> bool {
    match c.triplet {
        Some(t) => numbered_terminal(t),
        None => match c.sequence {
            Some((_, r)) => run_has_terminal(r),
            None => false,
        },
    }
}

pub open spec fn wind_tile(w: Wind) -> Tile {
    Tile { kind: TileKind::Wind(w), red: false }
}

pub open spec fn dragon_tile(d: Dragon) -> Tile {
    Tile { kind: TileKind::Dragon(d), red: false }
}

pub open spec fn is_wind_triplet(c: MeldComponent) -> bool {
    c.triplet matches Some(t) && t.kind is Wind
}

/// Wind triplets among a list of components.
pub open spec fn count_wind_triplets(open: Seq<MeldComponent>) -> nat
    decreases open.len(),
{
    if open.len() == 0 {
        0
    } else {
        count_wind_triplets(open.drop_last()) + if is_wind_triplet(open.last()) { 1nat } else { 0nat }
    }
}

/// Closed runs of `suit` from rank `r` among a list of components.
pub open spec fn count_closed_runs(open: Seq<MeldComponent>, suit: Suit, r: u8) -> nat
    decreases open.len(),
{
    if open.len() == 0 {
        0
    } else {
        count_closed_runs(open.drop_last(), suit, r) + if !open.last().open && open.last().sequence
            == Some((suit, r)) {
            1nat
        } else {
            0nat
        }
    }
}

/// Wind triplets among the components: open ones, then each wind's concealed triplets.
pub open spec fn wind_triplets(open: Seq<MeldComponent>, sets: Multiset<SetTiles>) -> nat {
    count_wind_triplets(open) + sets.count(
        (wind_tile(Wind::East), wind_tile(Wind::East), wind_tile(Wind::East)),
    ) + sets.count((wind_tile(Wind::South), wind_tile(Wind::South), wind_tile(Wind::South)))
        + sets.count((wind_tile(Wind::West), wind_tile(Wind::West), wind_tile(Wind::West)))
        + sets.count((wind_tile(Wind::North), wind_tile(Wind::North), wind_tile(Wind::North)))
}

/// Concealed runs of `suit` from rank `r` (at most 7): closed components, and concealed
/// sets led by the plain or the red tile of that rank.
pub open spec fn closed_run_count(open: Seq<MeldComponent>, sets: Multiset<SetTiles>, suit: Suit, r: u8) -> nat {
    let b = numbered_tile(suit, (r + 1) as u8);
    let c = numbered_tile(suit, (r + 2) as u8);
    count_closed_runs(open, suit, r) + sets.count((numbered_tile(suit, r), b, c)) + sets.count(
        (Tile { red: true, ..numbered_tile(suit, r) }, b, c),
    )
}

pub open spec fn suit_at(k: int) -> Suit {
    if k == 0 {
        Suit::Man
    } else if k == 1 {
        Suit::Pin
    } else {
        Suit::Sou
    }
}

/// Pairs of identical concealed runs, summed over the runs of the first `k` faces
/// (faces ordered by suit, then lowest rank 0 through 7).
pub open spec fn peikou_upto(open: Seq<MeldComponent>, sets: Multiset<SetTiles>, k: int) -> nat
    decreases k,
{
    if k <= 0 {
        0
    } else {
        peikou_upto(open, sets, k - 1) + closed_run_count(open, sets, suit_at((k - 1) / 8), ((k - 1) % 8) as u8) / 2
    }
}

pub open spec fn peikou_pairs(open: Seq<MeldComponent>, sets: Multiset<SetTiles>) -> nat {
    peikou_upto(open, sets, 24)
}

pub open spec fn pattern_holds(pat: Pattern, open: Seq<MeldComponent>, pair: Tile, sets: Multiset<SetTiles>) -> bool {
    match pat {
        Pattern::AllTriplets => all_comps(pat, open, sets),
        Pattern::ThreeColourRun => exists|r: u8|
            1 <= r <= 7 && #[trigger] has_run(open, sets, Suit::Man, r) && has_run(open, sets, Suit::Pin, r)
                && has_run(open, sets, Suit::Sou, r),
        Pattern::Straight => exists|s: Suit|
            #[trigger] has_run(open, sets, s, 1) && has_run(open, sets, s, 4) && has_run(open, sets, s, 7),
        Pattern::OnePeikou => peikou_pairs(open, sets) == 1,
        Pattern::TwoPeikou => peikou_pairs(open, sets) == 2,
        Pattern::OutsideWithHonors => all_comps(pat, open, sets) && terminal_or_honor_kind(pair.kind),
        Pattern::OutsideTerminals => all_comps(pat, open, sets) && numbered_terminal(pair),
        Pattern::ThreeDragons => has_triplet(open, sets, dragon_tile(Dragon::White)) && has_triplet(
            open,
            sets,
            dragon_tile(Dragon::Green),
        ) && has_triplet(open, sets, dragon_tile(Dragon::Red)),
        Pattern::LittleWinds => wind_triplets(open, sets) == 3 && pair.kind is Wind,
        Pattern::BigWinds => wind_triplets(open, sets) == 4,
    }
}

/// Some standard decomposition of the win shows the pattern.
pub open spec fn some_split_has(pat: Pattern, h: Hand, win_tile: Tile, win_type: WinType) -> bool {
    exists|p: Tile, l: Seq<SetTiles>|
        #[trigger] split_of(h, win_tile, win_type, p, l) && pattern_holds(
            pat,
            open_components(h.melds@),
            p,
            l.to_multiset(),
        )
}

fn min_key_tile_exec(tiles: &[Tile]) -> (t: Tile)
    requires
        tiles@.len() > 0,
    ensures
        t == min_key_tile(tiles@),
{
    let mut best = tiles[0];
    let mut i: usize = 1;
    while i < tiles.len()
        invariant
            1 <= i <= tiles@.len(),
            best == min_key_tile(tiles@.take(i as int)),
        decreases tiles@.len() - i,
    {
        proof {
            assert(tiles@.take(i + 1).drop_last() =~= tiles@.take(i as int));
        }
        if tiles[i].key() < best.key() {
            best = tiles[i];
        }
        i = i + 1;
    }
    proof {
        assert(tiles@.take(tiles@.len() as int) =~= tiles@);
    }
    best
}

/// The components of the laid-open melds, in meld order.
pub fn open_melds(hand: &Hand) -> (v: Vec<MeldComponent>)
    requires
        hand_sizes_ok(*hand),
    ensures
        v@ == open_components(hand.melds@),
{
    let mut v: Vec<MeldComponent> = Vec::new();
    let mut i: usize = 0;
    while i < hand.melds.len()
        invariant
            i <= hand.melds@.len(),
            hand_sizes_ok(*hand),
            v@ == open_components(hand.melds@.take(i as int)),
        decreases hand.melds@.len() - i,
    {
        proof {
            assert(hand.melds@.take(i + 1).drop_last() =~= hand.melds@.take(i as int));
        }
        let meld = &hand.melds[i];
        let tiles = meld.tiles.as_slice();
        assert(tiles@.len() > 0);
        match meld.kind {
            MeldKind::Chi => {
                let t = min_key_tile_exec(tiles);
                match (t.suit(), t.rank()) {
                    (Some(s), Some(r)) => {
                        v.push(MeldComponent { sequence: Some((s, r)), triplet: None, open: true });
                    },
                    _ => {},
                }
            },
            MeldKind::Pon | MeldKind::OpenKan => {
                v.push(MeldComponent { sequence: None, triplet: Some(tiles[0]), open: true });
            },
            MeldKind::ClosedKan => {
                v.push(MeldComponent { sequence: None, triplet: Some(tiles[0]), open: false });
            },
        }
        i = i + 1;
    }
    proof {
        assert(hand.melds@.take(hand.melds@.len() as int) =~= hand.melds@);
    }
    v
}

fn add_pair_splits(ds: &mut Vec<(Tile, Vec<SetTiles>)>, p: Tile, subs: &Vec<Vec<SetTiles>>)
    ensures
        final(ds)@.len() == old(ds)@.len() + subs@.len(),
        forall|q: int| 0 <= q < old(ds)@.len() ==> (#[trigger] final(ds)@[q]) == old(ds)@[q],
        forall|q: int|
            0 <= q < subs@.len() ==> (#[trigger] final(ds)@[old(ds)@.len() + q]).0 == p && final(ds)@[old(ds)@.len() + q].1@ == subs@[q]@,
{
    let ghost before = ds@;
    let mut k: usize = 0;
    while k < subs.len()
        invariant
            k <= subs@.len(),
            ds@.len() == before.len() + k,
            forall|q: int| 0 <= q < before.len() ==> (#[trigger] ds@[q]) == before[q],
            forall|q: int| 0 <= q < k ==> (#[trigger] ds@[before.len() + q]).0 == p && ds@[before.len() + q].1@ == subs@[q]@,
        decreases subs@.len() - k,
    {
        let copy = copy_sets(&subs[k]);
        ds.push((p, copy));
        k = k + 1;
    }
}

/// `ds` lists a decomposition with pair `p` holding the same sets as `l`.
pub open spec fn covered(ds: Seq<(Tile, Vec<SetTiles>)>, p: Tile, l: Seq<SetTiles>) -> bool {
    exists|q: int| 0 <= q < ds.len() && (#[trigger] ds[q]).0 == p && ds[q].1@.to_multiset() == l.to_multiset()
}

/// Every splitting of what is left after the pair `p` is listed in `ds`.
#[verifier::opaque]
pub open spec fn pair_done(ds: Seq<(Tile, Vec<SetTiles>)>, m: Multiset<Tile>, p: Tile, n: nat) -> bool {
    forall|l: Seq<SetTiles>| #[trigger] splitting(l, m.remove(p).remove(p), n) ==> covered(ds, p, l)
}

proof fn lemma_pair_done_grows(a: Seq<(Tile, Vec<SetTiles>)>, b: Seq<(Tile, Vec<SetTiles>)>, m: Multiset<Tile>, p: Tile, n: nat)
    requires
        pair_done(a, m, p, n),
        a.len() <= b.len(),
        forall|q: int| 0 <= q < a.len() ==> #[trigger] b[q] == a[q],
    ensures
        pair_done(b, m, p, n),
{
    reveal(pair_done);
    assert forall|l: Seq<SetTiles>| #[trigger] splitting(l, m.remove(p).remove(p), n) implies covered(b, p, l) by {
        let q = choose|q: int| 0 <= q < a.len() && (#[trigger] a[q]).0 == p && a[q].1@.to_multiset() == l.to_multiset();
        assert(b[q] == a[q]);
    }
}

proof fn lemma_pair_done_new(
    a: Seq<(Tile, Vec<SetTiles>)>,
    b: Seq<(Tile, Vec<SetTiles>)>,
    subs: Seq<Vec<SetTiles>>,
    m: Multiset<Tile>,
    p: Tile,
    n: nat,
)
    requires
        b.len() == a.len() + subs.len(),
        forall|q: int| 0 <= q < subs.len() ==> (#[trigger] b[a.len() + q]).0 == p && b[a.len() + q].1@ == subs[q]@,
        forall|l: Seq<SetTiles>|
            #[trigger] splitting(l, m.remove(p).remove(p), n) ==> exists|i: int|
                0 <= i < subs.len() && (#[trigger] subs[i])@.to_multiset() == l.to_multiset(),
    ensures
        pair_done(b, m, p, n),
{
    reveal(pair_done);
    assert forall|l: Seq<SetTiles>| #[trigger] splitting(l, m.remove(p).remove(p), n) implies covered(b, p, l) by {
        let i = choose|i: int| 0 <= i < subs.len() && (#[trigger] subs[i])@.to_multiset() == l.to_multiset();
        assert(b[a.len() + i].0 == p);
    }
}

proof fn lemma_split_of_intro(h: Hand, win_tile: Tile, win_type: WinType, p: Tile, l: Seq<SetTiles>, m: Multiset<Tile>, n: nat)
    requires
        m == with_call_tile(h.concealed@, win_tile, win_type).to_multiset(),
        open_components(h.melds@).len() <= 4,
        n == 4 - open_components(h.melds@).len(),
        m.count(p) >= 2,
        splitting(l, m.remove(p).remove(p), n),
    ensures
        split_of(h, win_tile, win_type, p, l),
{
}

/// Every standard decomposition of the concealed tiles with the winning tile, up to the
/// order of the sets: pairs, each with a list of sets.
#[verifier::spinoff_prover]
pub fn decompositions(hand: &Hand, win_tile: Tile, win_type: WinType) -> (ds: Vec<(Tile, Vec<SetTiles>)>)
    requires
        hand_sizes_ok(*hand),
    ensures
        forall|i: int| 0 <= i < ds@.len() ==> split_of(*hand, win_tile, win_type, (#[trigger] ds@[i]).0, ds@[i].1@),
        forall|p: Tile, l: Seq<SetTiles>|
            #[trigger] split_of(*hand, win_tile, win_type, p, l) ==> covered(ds@, p, l),
{
    let open = open_melds(hand);
    let mut ds: Vec<(Tile, Vec<SetTiles>)> = Vec::new();
    if open.len() > 4 {
        return ds;
    }
    let n = 4 - open.len();
    let mut tiles = tiles_with_win_tile(hand, win_tile, win_type);
    let ghost m = tiles@.to_multiset();
    sort_tiles(&mut tiles);
    let ghost s = tiles@;
    let mut i: usize = 0;
    while i < tiles.len()
        invariant
            s == tiles@,
            sorted(s),
            m == s.to_multiset(),
            m == with_call_tile(hand.concealed@, win_tile, win_type).to_multiset(),
            open@ == open_components(hand.melds@),
            open@.len() <= 4,
            n == 4 - open@.len(),
            i <= s.len(),
            forall|q: int| 0 <= q < ds@.len() ==> split_of(*hand, win_tile, win_type, (#[trigger] ds@[q]).0, ds@[q].1@),
            forall|k: int| 0 <= k < i && k + 1 < s.len() && s[k] == s[k + 1] ==> #[trigger] pair_done(ds@, m, s[k], n as nat),
        decreases tiles@.len() - i,
    {
        if i + 1 < tiles.len() && tiles[i] == tiles[i + 1] {
            let p = tiles[i];
            let mut rest = copy_tiles(tiles.as_slice());
            rest.remove(i + 1);
            rest.remove(i);
            proof {
                let r1 = s.remove(i + 1);
                lemma_sorted_remove(s, i + 1);
                lemma_sorted_remove(r1, i as int);
                assert(r1.to_multiset() =~= m.remove(p));
                assert(r1[i as int] == p);
                assert(r1.remove(i as int).to_multiset() =~= m.remove(p).remove(p));
                assert(m.count(p) >= 2) by {
                    assert(m.remove(p).count(p) >= 1) by {
                        assert(r1.contains(p));
                    }
                }
            }
            let subs = enumerate_sets(&rest, n);
            let ghost before = ds@;
            add_pair_splits(&mut ds, p, &subs);
            proof {
                assert forall|q: int| 0 <= q < ds@.len() implies split_of(*hand, win_tile, win_type, (#[trigger] ds@[q]).0, ds@[q].1@) by {
                    if q >= before.len() {
                        let j = q - before.len();
                        assert(ds@[before.len() + j].1@ == subs@[j]@);
                        lemma_split_of_intro(*hand, win_tile, win_type, p, subs@[j]@, m, n as nat);
                    } else {
                        assert(ds@[q] == before[q]);
                    }
                }
                lemma_pair_done_new(before, ds@, subs@, m, p, n as nat);
                assert forall|k: int| 0 <= k < i + 1 && k + 1 < s.len() && s[k] == s[k + 1] implies #[trigger] pair_done(ds@, m, s[k], n as nat) by {
                    if k < i {
                        lemma_pair_done_grows(before, ds@, m, s[k], n as nat);
                    }
                }
            }
        }
        i = i + 1;
    }
    proof {
        assert forall|p: Tile, l: Seq<SetTiles>|
            #[trigger] split_of(*hand, win_tile, win_type, p, l) implies covered(ds@, p, l) by {
            let k = lemma_sorted_adjacent_pair(s, p);
            assert(pair_done(ds@, m, s[k], n as nat));
            reveal(pair_done);
            assert(splitting(l, m.remove(s[k]).remove(s[k]), n as nat));
        }
    }
    ds
}

fn copy_sets(e: &Vec<SetTiles>) -> (v: Vec<SetTiles>)
    ensures
        v@ == e@,
{
    let mut v: Vec<SetTiles> = Vec::new();
    let mut i: usize = 0;
    while i < e.len()
        invariant
            i <= e@.len(),
            v@ == e@.take(i as int),
        decreases e@.len() - i,
    {
        v.push(e[i]);
        i = i + 1;
        assert(v@ =~= e@.take(i as int));
    }
    assert(e@.take(e@.len() as int) =~= e@);
    v
}

fn set_is_triplet(x: SetTiles) -> (b: bool)
    ensures
        b == is_triplet(x.0, x.1, x.2),
{
    x.0 == x.1 && x.1 == x.2
}

fn same_set(a: SetTiles, b: SetTiles) -> (r: bool)
    ensures
        r == (a == b),
{
    a.0 == b.0 && a.1 == b.1 && a.2 == b.2
}

/// The component of a concealed set.
fn component_of(x: SetTiles) -> (c: MeldComponent)
    requires
        is_set(x.0, x.1, x.2),
    ensures
        c == set_component(x),
{
    if set_is_triplet(x) {
        MeldComponent { sequence: None, triplet: Some(x.0), open: false }
    } else {
        match (x.0.suit(), x.0.rank()) {
            (Some(s), Some(r)) => MeldComponent { sequence: Some((s, r)), triplet: None, open: false },
            _ => {
                proof {
                    assert(false);
                }
                MeldComponent { sequence: None, triplet: None, open: false }
            },
        }
    }
}

/// How many copies of `x` the list holds.
fn count_set(e: &Vec<SetTiles>, x: SetTiles) -> (n: usize)
    ensures
        n == e@.to_multiset().count(x),
{
    let mut n: usize = 0;
    let mut i: usize = 0;
    while i < e.len()
        invariant
            i <= e@.len(),
            n == e@.take(i as int).to_multiset().count(x),
            n <= i,
        decreases e@.len() - i,
    {
        proof {
            assert(e@.take(i + 1) =~= e@.take(i as int).push(e@[i as int]));
        }
        if same_set(e[i], x) {
            n = n + 1;
        }
        i = i + 1;
    }
    proof {
        assert(e@.take(e@.len() as int) =~= e@);
    }
    n
}

/// The components of a decomposition: the open ones, then those of the concealed sets.
fn components(open: &Vec<MeldComponent>, sets: &Vec<SetTiles>) -> (v: Vec<MeldComponent>)
    requires
        forall|j: int| 0 <= j < sets@.len() ==> is_set((#[trigger] sets@[j]).0, sets@[j].1, sets@[j].2),
    ensures
        v@.len() == open@.len() + sets@.len(),
        forall|j: int| 0 <= j < open@.len() ==> #[trigger] v@[j] == open@[j],
        forall|j: int| 0 <= j < sets@.len() ==> #[trigger] v@[open@.len() + j] == set_component(sets@[j]),
{
    let mut v: Vec<MeldComponent> = Vec::new();
    let mut i: usize = 0;
    while i < open.len()
        invariant
            i <= open@.len(),
            v@ == open@.take(i as int),
        decreases open@.len() - i,
    {
        v.push(open[i]);
        i = i + 1;
        assert(v@ =~= open@.take(i as int));
    }
    assert(open@.take(open@.len() as int) =~= open@);
    let mut j: usize = 0;
    while j < sets.len()
        invariant
            j <= sets@.len(),
            forall|q: int| 0 <= q < sets@.len() ==> is_set((#[trigger] sets@[q]).0, sets@[q].1, sets@[q].2),
            v@.len() == open@.len() + j,
            forall|q: int| 0 <= q < open@.len() ==> #[trigger] v@[q] == open@[q],
            forall|q: int| 0 <= q < j ==> #[trigger] v@[open@.len() + q] == set_component(sets@[q]),
        decreases sets@.len() - j,
    {
        v.push(component_of(sets[j]));
        j = j + 1;
    }
    v
}

fn comp_prop_exec(pat: Pattern, c: MeldComponent) -> (b: bool)
    ensures
        b == comp_prop(pat, c),
{
    match pat {
        Pattern::AllTriplets => c.triplet.is_some(),
        Pattern::OutsideWithHonors => match c.triplet {
            Some(t) => is_terminal_or_honor(t),
            None => match c.sequence {
                Some((_, r)) => r == 1 || r == 0 || r == 9 || r == 8 || r == 7,
                None => false,
            },
        },
        Pattern::OutsideTerminals => match c.triplet {
            Some(t) => {
                let r = t.rank();
                r == Some(1u8) || r == Some(9u8)
            },
            None => match c.sequence {
                Some((_, r)) => r == 1 || r == 0 || r == 9 || r == 8 || r == 7,
                None => false,
            },
        },
        _ => true,
    }
}

/// Every component has the property.
fn all_components(pat: Pattern, comps: &Vec<MeldComponent>) -> (b: bool)
    ensures
        b == forall|j: int| 0 <= j < comps@.len() ==> comp_prop(pat, #[trigger] comps@[j]),
{
    let mut i: usize = 0;
    while i < comps.len()
        invariant
            i <= comps@.len(),
            forall|j: int| 0 <= j < i ==> comp_prop(pat, #[trigger] comps@[j]),
        decreases comps@.len() - i,
    {
        if !comp_prop_exec(pat, comps[i]) {
            return false;
        }
        i = i + 1;
    }
    true
}

/// Some component is the run of `suit` from `r`.
fn any_run(comps: &Vec<MeldComponent>, suit: Suit, r: u8) -> (b: bool)
    ensures
        b == exists|j: int| 0 <= j < comps@.len() && comp_has_seq(#[trigger] comps@[j], suit, r),
{
    let mut i: usize = 0;
    while i < comps.len()
        invariant
            i <= comps@.len(),
            forall|j: int| 0 <= j < i ==> !comp_has_seq(#[trigger] comps@[j], suit, r),
        decreases comps@.len() - i,
    {
        match comps[i].sequence {
            Some((s, q)) => {
                if s == suit && q == r {
                    return true;
                }
            },
            None => {},
        }
        i = i + 1;
    }
    false
}

/// Some component is the triplet of exactly `t`.
fn any_triplet_of(comps: &Vec<MeldComponent>, t: Tile) -> (b: bool)
    ensures
        b == exists|j: int| 0 <= j < comps@.len() && (#[trigger] comps@[j]).triplet == Some(t),
{
    let mut i: usize = 0;
    while i < comps.len()
        invariant
            i <= comps@.len(),
            forall|j: int| 0 <= j < i ==> (#[trigger] comps@[j]).triplet != Some(t),
        decreases comps@.len() - i,
    {
        match comps[i].triplet {
            Some(x) => {
                if x == t {
                    return true;
                }
            },
            None => {},
        }
        i = i + 1;
    }
    false
}

/// The plain tile of `suit` and `rank` (any rank).
fn numbered_any(suit: Suit, rank: u8) -> (t: Tile)
    ensures
        t == numbered_tile(suit, rank),
{
    let kind = match suit {
        Suit::Man => TileKind::Man(rank),
        Suit::Pin => TileKind::Pin(rank),
        Suit::Sou => TileKind::Sou(rank),
    };
    Tile { kind, red: false }
}

fn closed_runs_in(open: &Vec<MeldComponent>, suit: Suit, r: u8) -> (n: usize)
    ensures
        n == count_closed_runs(open@, suit, r),
{
    let mut n: usize = 0;
    let mut i: usize = 0;
    while i < open.len()
        invariant
            i <= open@.len(),
            n == count_closed_runs(open@.take(i as int), suit, r),
            n <= i,
        decreases open@.len() - i,
    {
        proof {
            assert(open@.take(i + 1).drop_last() =~= open@.take(i as int));
        }
        let c = open[i];
        let hit = match c.sequence {
            Some((s2, q)) => !c.open && s2 == suit && q == r,
            None => false,
        };
        if hit {
            n = n + 1;
        }
        i = i + 1;
    }
    proof {
        assert(open@.take(open@.len() as int) =~= open@);
    }
    n
}

fn wind_triplets_in(open: &Vec<MeldComponent>) -> (n: usize)
    ensures
        n == count_wind_triplets(open@),
{
    let mut n: usize = 0;
    let mut i: usize = 0;
    while i < open.len()
        invariant
            i <= open@.len(),
            n == count_wind_triplets(open@.take(i as int)),
            n <= i,
        decreases open@.len() - i,
    {
        proof {
            assert(open@.take(i + 1).drop_last() =~= open@.take(i as int));
        }
        let hit = match open[i].triplet {
            Some(t) => matches!(t.kind, TileKind::Wind(_)),
            None => false,
        };
        if hit {
            n = n + 1;
        }
        i = i + 1;
    }
    proof {
        assert(open@.take(open@.len() as int) =~= open@);
    }
    n
}

fn suit_at_exec(k: usize) -> (s: Suit)
    ensures
        s == suit_at(k as int),
{
    if k == 0 {
        Suit::Man
    } else if k == 1 {
        Suit::Pin
    } else {
        Suit::Sou
    }
}

fn peikou_count(open: &Vec<MeldComponent>, sets: &Vec<SetTiles>) -> (n: usize)
    requires
        open@.len() <= 4,
        sets@.len() <= 4,
    ensures
        n == peikou_pairs(open@, sets@.to_multiset()),
{
    let ghost ms = sets@.to_multiset();
    let mut total: usize = 0;
    let mut k: usize = 0;
    while k < 24
        invariant
            k <= 24,
            ms == sets@.to_multiset(),
            open@.len() <= 4,
            sets@.len() <= 4,
            total == peikou_upto(open@, ms, k as int),
            total <= 6 * k,
        decreases 24 - k,
    {
        let suit = suit_at_exec(k / 8);
        let r = (k % 8) as u8;
        let a = numbered_any(suit, r);
        let b = numbered_any(suit, r + 1);
        let c = numbered_any(suit, r + 2);
        let red = Tile { kind: a.kind, red: true };
        let x = closed_runs_in(open, suit, r);
        let y = count_set(sets, (a, b, c));
        let z = count_set(sets, (red, b, c));
        proof {
            assert(red == Tile { red: true, ..numbered_tile(suit, r) });
            assert(y <= sets@.len() && z <= sets@.len()) by {
                assert(ms.count((a, b, c)) <= ms.len());
                assert(ms.count((red, b, c)) <= ms.len());
            }
            lemma_count_closed_runs_le(open@, suit, r);
        }
        total = total + (x + y + z) / 2;
        k = k + 1;
    }
    total
}

proof fn lemma_count_closed_runs_le(open: Seq<MeldComponent>, suit: Suit, r: u8)
    ensures
        count_closed_runs(open, suit, r) <= open.len(),
    decreases open.len(),
{
    if open.len() > 0 {
        lemma_count_closed_runs_le(open.drop_last(), suit, r);
    }
}

proof fn lemma_in_sets(sets: Seq<SetTiles>, x: SetTiles)
    ensures
        sets.to_multiset().count(x) > 0 <==> exists|j: int| 0 <= j < sets.len() && sets[j] == x,
{
    if sets.to_multiset().count(x) > 0 {
        assert(sets.contains(x));
    }
    if exists|j: int| 0 <= j < sets.len() && sets[j] == x {
        let j = choose|j: int| 0 <= j < sets.len() && sets[j] == x;
        assert(sets.contains(sets[j]));
    }
}

/// Whether the decomposition (open components, pair, concealed sets) shows the pattern.
pub fn evaluate(pat: Pattern, open: &Vec<MeldComponent>, pair: Tile, sets: &Vec<SetTiles>) -> (b: bool)
    requires
        forall|j: int| 0 <= j < sets@.len() ==> is_set((#[trigger] sets@[j]).0, sets@[j].1, sets@[j].2),
        open@.len() + sets@.len() <= 4,
    ensures
        b == pattern_holds(pat, open@, pair, sets@.to_multiset()),
{
    let ghost ms = sets@.to_multiset();
    let comps = components(open, sets);
    let ghost k = open@.len();
    proof {
        assert forall|x: SetTiles| #[trigger] ms.count(x) > 0 <==> exists|j: int| 0 <= j < sets@.len() && sets@[j] == x by {
            lemma_in_sets(sets@, x);
        }
    }
    match pat {
        Pattern::AllTriplets | Pattern::OutsideWithHonors | Pattern::OutsideTerminals => {
            let all = all_components(pat, &comps);
            proof {
                if all {
                    assert forall|x: SetTiles| #[trigger] ms.count(x) > 0 implies comp_prop(pat, set_component(x)) by {
                        let j = choose|j: int| 0 <= j < sets@.len() && sets@[j] == x;
                        assert(comps@[k + j] == set_component(sets@[j]));
                    }
                    assert forall|i: int| 0 <= i < open@.len() implies comp_prop(pat, #[trigger] open@[i]) by {
                        assert(comps@[i] == open@[i]);
                    }
                } else {
                    let j = choose|j: int| 0 <= j < comps@.len() && !comp_prop(pat, #[trigger] comps@[j]);
                    if j < k {
                        assert(comps@[j] == open@[j]);
                    } else {
                        assert(comps@[k + (j - k)] == set_component(sets@[j - k]));
                        assert(ms.count(sets@[j - k]) > 0);
                    }
                }
            }
            match pat {
                Pattern::OutsideWithHonors => all && is_terminal_or_honor(pair),
                Pattern::OutsideTerminals => {
                    let r = pair.rank();
                    all && (r == Some(1u8) || r == Some(9u8))
                },
                _ => all,
            }
        },
        Pattern::ThreeColourRun => {
            let mut r: u8 = 1;
            while r <= 7
                invariant
                    1 <= r <= 8,
                    pat == Pattern::ThreeColourRun,
                    comps@.len() == k + sets@.len(),
                    forall|i: int| 0 <= i < k ==> #[trigger] comps@[i] == open@[i],
                    forall|j: int| 0 <= j < sets@.len() ==> #[trigger] comps@[k + j] == set_component(sets@[j]),
                    k == open@.len(),
                    ms == sets@.to_multiset(),
                    forall|x: SetTiles| #[trigger] ms.count(x) > 0 <==> exists|j: int| 0 <= j < sets@.len() && sets@[j] == x,
                    forall|q: u8| 1 <= q < r ==> !(#[trigger] has_run(open@, ms, Suit::Man, q) && has_run(open@, ms, Suit::Pin, q)
                        && has_run(open@, ms, Suit::Sou, q)),
                decreases 8 - r,
            {
                let a = any_run(&comps, Suit::Man, r);
                let b = any_run(&comps, Suit::Pin, r);
                let c = any_run(&comps, Suit::Sou, r);
                proof {
                    lemma_has_run_comps(open@, sets@, ms, comps@, Suit::Man, r);
                    lemma_has_run_comps(open@, sets@, ms, comps@, Suit::Pin, r);
                    lemma_has_run_comps(open@, sets@, ms, comps@, Suit::Sou, r);
                }
                if a && b && c {
                    proof {
                        assert(has_run(open@, ms, Suit::Man, r) && has_run(open@, ms, Suit::Pin, r) && has_run(open@, ms, Suit::Sou, r));
                        assert(pattern_holds(Pattern::ThreeColourRun, open@, pair, ms));
                    }
                    return true;
                }
                r = r + 1;
            }
            false
        },
        Pattern::Straight => {
            let mut found = false;
            let mut si: usize = 0;
            while si < 3
                invariant
                    si <= 3,
                    pat == Pattern::Straight,
                    comps@.len() == k + sets@.len(),
                    forall|i: int| 0 <= i < k ==> #[trigger] comps@[i] == open@[i],
                    forall|j: int| 0 <= j < sets@.len() ==> #[trigger] comps@[k + j] == set_component(sets@[j]),
                    k == open@.len(),
                    ms == sets@.to_multiset(),
                    forall|x: SetTiles| #[trigger] ms.count(x) > 0 <==> exists|j: int| 0 <= j < sets@.len() && sets@[j] == x,
                    forall|q: int| 0 <= q < si ==> !(#[trigger] has_run(open@, ms, suit_at(q), 1) && has_run(open@, ms, suit_at(q), 4)
                        && has_run(open@, ms, suit_at(q), 7)),
                decreases 3 - si,
            {
                let suit = suit_at_exec(si);
                let a = any_run(&comps, suit, 1);
                let b = any_run(&comps, suit, 4);
                let c = any_run(&comps, suit, 7);
                proof {
                    lemma_has_run_comps(open@, sets@, ms, comps@, suit, 1);
                    lemma_has_run_comps(open@, sets@, ms, comps@, suit, 4);
                    lemma_has_run_comps(open@, sets@, ms, comps@, suit, 7);
                }
                if a && b && c {
                    proof {
                        assert(has_run(open@, ms, suit, 1) && has_run(open@, ms, suit, 4) && has_run(open@, ms, suit, 7));
                        assert(pattern_holds(Pattern::Straight, open@, pair, ms));
                    }
                    return true;
                }
                si = si + 1;
            }
            proof {
                assert forall|s: Suit| !(#[trigger] has_run(open@, ms, s, 1) && has_run(open@, ms, s, 4) && has_run(open@, ms, s, 7)) by {
                    match s {
                        Suit::Man => assert(suit_at(0) == Suit::Man),
                        Suit::Pin => assert(suit_at(1) == Suit::Pin),
                        Suit::Sou => assert(suit_at(2) == Suit::Sou),
                    }
                }
            }
            false
        },
        Pattern::OnePeikou => peikou_count(open, sets) == 1,
        Pattern::TwoPeikou => peikou_count(open, sets) == 2,
        Pattern::ThreeDragons => {
            let w = any_triplet_of(&comps, Tile::dragon(Dragon::White));
            let g = any_triplet_of(&comps, Tile::dragon(Dragon::Green));
            let r = any_triplet_of(&comps, Tile::dragon(Dragon::Red));
            proof {
                lemma_has_triplet_comps(open@, sets@, ms, comps@, dragon_tile(Dragon::White));
                lemma_has_triplet_comps(open@, sets@, ms, comps@, dragon_tile(Dragon::Green));
                lemma_has_triplet_comps(open@, sets@, ms, comps@, dragon_tile(Dragon::Red));
            }
            w && g && r
        },
        Pattern::LittleWinds | Pattern::BigWinds => {
            let e = Tile::wind(Wind::East);
            let so = Tile::wind(Wind::South);
            let we = Tile::wind(Wind::West);
            let no = Tile::wind(Wind::North);
            let x = wind_triplets_in(open);
            let c1 = count_set(sets, (e, e, e));
            let c2 = count_set(sets, (so, so, so));
            let c3 = count_set(sets, (we, we, we));
            let c4 = count_set(sets, (no, no, no));
            proof {
                lemma_count_wind_le(open@);
                assert(c1 <= 4 && c2 <= 4 && c3 <= 4 && c4 <= 4) by {
                    assert(ms.count((e, e, e)) <= ms.len());
                    assert(ms.count((so, so, so)) <= ms.len());
                    assert(ms.count((we, we, we)) <= ms.len());
                    assert(ms.count((no, no, no)) <= ms.len());
                }
            }
            let total = x + c1 + c2 + c3 + c4;
            match pat {
                Pattern::LittleWinds => total == 3 && matches!(pair.kind, TileKind::Wind(_)),
                _ => total == 4,
            }
        },
    }
}

proof fn lemma_count_wind_le(open: Seq<MeldComponent>)
    ensures
        count_wind_triplets(open) <= open.len(),
    decreases open.len(),
{
    if open.len() > 0 {
        lemma_count_wind_le(open.drop_last());
    }
}

proof fn lemma_has_run_comps(
    open: Seq<MeldComponent>,
    sets: Seq<SetTiles>,
    ms: Multiset<SetTiles>,
    comps: Seq<MeldComponent>,
    suit: Suit,
    r: u8,
)
    requires
        ms == sets.to_multiset(),
        comps.len() == open.len() + sets.len(),
        forall|i: int| 0 <= i < open.len() ==> #[trigger] comps[i] == open[i],
        forall|j: int| 0 <= j < sets.len() ==> #[trigger] comps[open.len() + j] == set_component(sets[j]),
        forall|x: SetTiles| #[trigger] ms.count(x) > 0 <==> exists|j: int| 0 <= j < sets.len() && sets[j] == x,
    ensures
        has_run(open, ms, suit, r) == exists|j: int| 0 <= j < comps.len() && comp_has_seq(#[trigger] comps[j], suit, r),
{
    let k = open.len() as int;
    if has_run(open, ms, suit, r) {
        if exists|i: int| 0 <= i < open.len() && comp_has_seq(#[trigger] open[i], suit, r) {
            let i = choose|i: int| 0 <= i < open.len() && comp_has_seq(#[trigger] open[i], suit, r);
            assert(comps[i] == open[i]);
        } else {
            let x = choose|x: SetTiles| #[trigger] ms.count(x) > 0 && comp_has_seq(set_component(x), suit, r);
            let j = choose|j: int| 0 <= j < sets.len() && sets[j] == x;
            assert(comps[k + j] == set_component(sets[j]));
        }
    }
    if exists|j: int| 0 <= j < comps.len() && comp_has_seq(#[trigger] comps[j], suit, r) {
        let j = choose|j: int| 0 <= j < comps.len() && comp_has_seq(#[trigger] comps[j], suit, r);
        if j < k {
            assert(comps[j] == open[j]);
        } else {
            assert(comps[k + (j - k)] == set_component(sets[j - k]));
            assert(ms.count(sets[j - k]) > 0);
        }
    }
}

proof fn lemma_has_triplet_comps(
    open: Seq<MeldComponent>,
    sets: Seq<SetTiles>,
    ms: Multiset<SetTiles>,
    comps: Seq<MeldComponent>,
    t: Tile,
)
    requires
        ms == sets.to_multiset(),
        comps.len() == open.len() + sets.len(),
        forall|i: int| 0 <= i < open.len() ==> #[trigger] comps[i] == open[i],
        forall|j: int| 0 <= j < sets.len() ==> #[trigger] comps[open.len() + j] == set_component(sets[j]),
        forall|x: SetTiles| #[trigger] ms.count(x) > 0 <==> exists|j: int| 0 <= j < sets.len() && sets[j] == x,
    ensures
        has_triplet(open, ms, t) == exists|j: int| 0 <= j < comps.len() && (#[trigger] comps[j]).triplet == Some(t),
{
    let k = open.len() as int;
    if has_triplet(open, ms, t) {
        if exists|i: int| 0 <= i < open.len() && (#[trigger] open[i]).triplet == Some(t) {
            let i = choose|i: int| 0 <= i < open.len() && (#[trigger] open[i]).triplet == Some(t);
            assert(comps[i] == open[i]);
        } else {
            let x = choose|x: SetTiles| #[trigger] ms.count(x) > 0 && set_component(x).triplet == Some(t);
            let j = choose|j: int| 0 <= j < sets.len() && sets[j] == x;
            assert(comps[k + j] == set_component(sets[j]));
        }
    }
    if exists|j: int| 0 <= j < comps.len() && (#[trigger] comps[j]).triplet == Some(t) {
        let j = choose|j: int| 0 <= j < comps.len() && (#[trigger] comps[j]).triplet == Some(t);
        if j < k {
            assert(comps[j] == open[j]);
        } else {
            assert(comps[k + (j - k)] == set_component(sets[j - k]));
            assert(ms.count(sets[j - k]) > 0);
        }
    }
}

/// Whether some standard decomposition of the win shows the pattern.
pub fn some_split_shows(pat: Pattern, hand: &Hand, win_tile: Tile, win_type: WinType) -> (b: bool)
    requires
        hand_sizes_ok(*hand),
    ensures
        b == some_split_has(pat, *hand, win_tile, win_type),
{
    let open = open_melds(hand);
    let ds = decompositions(hand, win_tile, win_type);
    let mut i: usize = 0;
    while i < ds.len()
        invariant
            i <= ds@.len(),
            open@ == open_components(hand.melds@),
            forall|q: int| 0 <= q < ds@.len() ==> split_of(*hand, win_tile, win_type, (#[trigger] ds@[q]).0, ds@[q].1@),
            forall|q: int| 0 <= q < i ==> !pattern_holds(pat, open@, (#[trigger] ds@[q]).0, ds@[q].1@.to_multiset()),
        decreases ds@.len() - i,
    {
        let (p, sets) = (ds[i].0, &ds[i].1);
        proof {
            assert(split_of(*hand, win_tile, win_type, ds@[i as int].0, ds@[i as int].1@));
        }
        if evaluate(pat, &open, p, sets) {
            proof {
                assert(split_of(*hand, win_tile, win_type, p, sets@));
            }
            return true;
        }
        i = i + 1;
    }
    proof {
        if some_split_has(pat, *hand, win_tile, win_type) {
            let (p, l) = choose|p: Tile, l: Seq<SetTiles>|
                #[trigger] split_of(*hand, win_tile, win_type, p, l) && pattern_holds(
                    pat,
                    open_components(hand.melds@),
                    p,
                    l.to_multiset(),
                );
            assert(covered(ds@, p, l));
            let q = choose|q: int| 0 <= q < ds@.len() && (#[trigger] ds@[q]).0 == p && ds@[q].1@.to_multiset() == l.to_multiset();
            assert(!pattern_holds(pat, open@, ds@[q].0, ds@[q].1@.to_multiset()));
        }
    }
    false
}

/// Seven pairs with the winning tile, for a hand without melds.
pub open spec fn chiitoitsu_spec(h: Hand, win_tile: Tile, win_type: WinType) -> bool {
    h.melds@.len() == 0 && pairs_only(with_call_tile(h.concealed@, win_tile, win_type).to_multiset())
}

/// All suited tiles of `m` share one suit, and there is at least one.
pub open spec fn one_suit(m: Multiset<Tile>) -> bool {
    suited_in(m, Suit::Man) || suited_in(m, Suit::Pin) || suited_in(m, Suit::Sou)
}

/// Every suited tile of `m` is of suit `s`, and one is.
pub open spec fn suited_in(m: Multiset<Tile>, s: Suit) -> bool {
    &&& forall|t: Tile| #[trigger] m.count(t) > 0 && tile_suit(t) is Some ==> tile_suit(t) == Some(s)
    &&& exists|t: Tile| #[trigger] m.count(t) > 0 && tile_suit(t) == Some(s)
}

pub open spec fn all_suited(m: Multiset<Tile>) -> bool {
    forall|t: Tile| #[trigger] m.count(t) > 0 ==> tile_suit(t) is Some
}

pub open spec fn any_honor(m: Multiset<Tile>) -> bool {
    exists|t: Tile| #[trigger] m.count(t) > 0 && is_honor_kind(t.kind)
}

pub open spec fn chinitsu_spec(m: Multiset<Tile>) -> bool {
    one_suit(m) && all_suited(m)
}

pub open spec fn honitsu_spec(m: Multiset<Tile>) -> bool {
    !chinitsu_spec(m) && one_suit(m) && any_honor(m)
}

fn is_one_suit(tiles: &Vec<Tile>) -> (b: bool)
    ensures
        b == one_suit(tiles@.to_multiset()),
{
    let ghost m = tiles@.to_multiset();
    let mut suit: Option<Suit> = None;
    let mut i: usize = 0;
    while i < tiles.len()
        invariant
            i <= tiles@.len(),
            m == tiles@.to_multiset(),
            suit is None ==> forall|j: int| 0 <= j < i ==> tile_suit(#[trigger] tiles@[j]) is None,
            suit matches Some(s) ==> (forall|j: int| 0 <= j < i && tile_suit(#[trigger] tiles@[j]) is Some ==> tile_suit(tiles@[j]) == Some(s))
                && exists|j: int| 0 <= j < i && tile_suit(#[trigger] tiles@[j]) == Some(s),
        decreases tiles@.len() - i,
    {
        match tiles[i].suit() {
            Some(s) => {
                match suit {
                    None => {
                        suit = Some(s);
                    },
                    Some(t) => {
                        if t != s {
                            proof {
                                let j = choose|j: int| 0 <= j < i && tile_suit(#[trigger] tiles@[j]) == Some(t);
                                assert(tiles@.contains(tiles@[j]));
                                assert(tiles@.contains(tiles@[i as int]));
                                assert forall|s2: Suit| !suited_in(m, s2) by {
                                    if suited_in(m, s2) {
                                        assert(m.count(tiles@[j]) > 0);
                                        assert(m.count(tiles@[i as int]) > 0);
                                    }
                                }
                            }
                            return false;
                        }
                    },
                }
            },
            None => {},
        }
        i = i + 1;
    }
    proof {
        match suit {
            Some(s) => {
                let j = choose|j: int| 0 <= j < i && tile_suit(#[trigger] tiles@[j]) == Some(s);
                assert(tiles@.contains(tiles@[j]));
                assert(m.count(tiles@[j]) > 0);
                assert forall|x: Tile| #[trigger] m.count(x) > 0 && tile_suit(x) is Some implies tile_suit(x) == Some(s) by {
                    assert(tiles@.contains(x));
                }
                assert(suited_in(m, s));
            },
            None => {
                assert forall|s2: Suit| !suited_in(m, s2) by {
                    assert forall|x: Tile| !(#[trigger] m.count(x) > 0 && tile_suit(x) == Some(s2)) by {
                        if m.count(x) > 0 {
                            assert(tiles@.contains(x));
                        }
                    }
                }
            },
        }
    }
    suit.is_some()
}

/// Whether every tile of the list satisfies the class test.
fn all_tiles_are(tiles: &Vec<Tile>, class: u8) -> (b: bool)
    requires
        class <= 3,
    ensures
        b == forall|t: Tile| #[trigger] tiles@.to_multiset().count(t) > 0 ==> tile_class(class, t),
{
    let ghost m = tiles@.to_multiset();
    let mut i: usize = 0;
    while i < tiles.len()
        invariant
            i <= tiles@.len(),
            class <= 3,
            m == tiles@.to_multiset(),
            forall|j: int| 0 <= j < i ==> tile_class(class, #[trigger] tiles@[j]),
        decreases tiles@.len() - i,
    {
        let t = tiles[i];
        let ok = if class == 0 {
            t.suit().is_some()
        } else if class == 1 {
            !matches!(t.kind, TileKind::Wind(_) | TileKind::Dragon(_))
        } else if class == 2 {
            is_terminal_or_honor(t)
        } else {
            let r = t.rank();
            r == Some(1u8) || r == Some(9u8)
        };
        if !ok {
            proof {
                assert(tiles@.contains(t));
                assert(m.count(t) > 0);
            }
            return false;
        }
        i = i + 1;
    }
    proof {
        assert forall|t: Tile| #[trigger] m.count(t) > 0 implies tile_class(class, t) by {
            assert(tiles@.contains(t));
        }
    }
    true
}

/// Tile classes: 0 suited, 1 not an honor, 2 terminal or honor, 3 numbered terminal.
pub open spec fn tile_class(class: u8, t: Tile) -> bool {
    if class == 0 {
        tile_suit(t) is Some
    } else if class == 1 {
        !is_honor_kind(t.kind)
    } else if class == 2 {
        terminal_or_honor_kind(t.kind)
    } else {
        numbered_terminal(t)
    }
}

/// A context the standard rules can evaluate: a sound state, a seat in range, at most four
/// melds and none of them empty.
pub open spec fn ctx_ok(ctx: &WinContext) -> bool {
    ctx.wf() && crate::hand::hand_play_ok(*ctx.hand)
}

pub open spec fn toitoi_spec(ctx: &WinContext) -> bool {
    !chiitoitsu_spec(*ctx.hand, ctx.win_tile, ctx.win_type) && some_split_has(Pattern::AllTriplets, *ctx.hand, ctx.win_tile, ctx.win_type)
}

/// All four melds triplets (not seven pairs).
pub fn is_toitoi_hand(ctx: &WinContext) -> (b: bool)
    requires
        ctx_ok(ctx),
    ensures
        b == toitoi_spec(ctx),
{
    if is_chiitoitsu_hand(ctx.hand, ctx.win_tile, ctx.win_type) {
        return false;
    }
    some_split_shows(Pattern::AllTriplets, ctx.hand, ctx.win_tile, ctx.win_type)
}

/// The same run in all three suits.
pub fn is_sanshoku_hand(ctx: &WinContext) -> (b: bool)
    requires
        ctx_ok(ctx),
    ensures
        b == some_split_has(Pattern::ThreeColourRun, *ctx.hand, ctx.win_tile, ctx.win_type),
{
    some_split_shows(Pattern::ThreeColourRun, ctx.hand, ctx.win_tile, ctx.win_type)
}

/// 123, 456 and 789 of one suit.
pub fn is_ittsu_hand(ctx: &WinContext) -> (b: bool)
    requires
        ctx_ok(ctx),
    ensures
        b == some_split_has(Pattern::Straight, *ctx.hand, ctx.win_tile, ctx.win_type),
{
    some_split_shows(Pattern::Straight, ctx.hand, ctx.win_tile, ctx.win_type)
}

/// A closed hand with one pair of identical concealed runs.
pub fn is_iipeikou_hand(ctx: &WinContext) -> (b: bool)
    requires
        ctx_ok(ctx),
    ensures
        b == (ctx.hand.melds@.len() == 0 && some_split_has(Pattern::OnePeikou, *ctx.hand, ctx.win_tile, ctx.win_type)),
{
    if !ctx.is_menzen() {
        return false;
    }
    some_split_shows(Pattern::OnePeikou, ctx.hand, ctx.win_tile, ctx.win_type)
}

/// A closed hand with two pairs of identical concealed runs.
pub fn is_ryanpeikou_hand(ctx: &WinContext) -> (b: bool)
    requires
        ctx_ok(ctx),
    ensures
        b == (ctx.hand.melds@.len() == 0 && some_split_has(Pattern::TwoPeikou, *ctx.hand, ctx.win_tile, ctx.win_type)),
{
    if !ctx.is_menzen() {
        return false;
    }
    some_split_shows(Pattern::TwoPeikou, ctx.hand, ctx.win_tile, ctx.win_type)
}

/// One suit only, no honors.
pub fn is_chinitsu_hand(ctx: &WinContext) -> (b: bool)
    ensures
        b == chinitsu_spec(full_hand(*ctx.hand, ctx.win_tile, ctx.win_type)),
{
    let tiles = all_tiles_in_hand(ctx.hand, ctx.win_tile, ctx.win_type);
    is_one_suit(&tiles) && all_tiles_are(&tiles, 0)
}

/// One suit plus honors (not a pure one-suit hand).
pub fn is_honitsu_hand(ctx: &WinContext) -> (b: bool)
    ensures
        b == honitsu_spec(full_hand(*ctx.hand, ctx.win_tile, ctx.win_type)),
{
    if is_chinitsu_hand(ctx) {
        return false;
    }
    let tiles = all_tiles_in_hand(ctx.hand, ctx.win_tile, ctx.win_type);
    let one = is_one_suit(&tiles);
    let no_honor = all_tiles_are(&tiles, 1);
    proof {
        let m = tiles@.to_multiset();
        if !no_honor {
            let t = choose|t: Tile| #[trigger] m.count(t) > 0 && !tile_class(1, t);
            assert(any_honor(m));
        } else {
            assert forall|t: Tile| !(#[trigger] m.count(t) > 0 && is_honor_kind(t.kind)) by {
                if m.count(t) > 0 {
                    assert(tile_class(1, t));
                }
            }
        }
    }
    one && !no_honor
}

pub open spec fn junchan_spec(ctx: &WinContext) -> bool {
    if chiitoitsu_spec(*ctx.hand, ctx.win_tile, ctx.win_type) {
        forall|t: Tile| #[trigger] with_call_tile(ctx.hand.concealed@, ctx.win_tile, ctx.win_type).to_multiset().count(t) > 0 ==> numbered_terminal(t)
    } else {
        !any_honor(full_hand(*ctx.hand, ctx.win_tile, ctx.win_type)) && some_split_has(
            Pattern::OutsideTerminals,
            *ctx.hand,
            ctx.win_tile,
            ctx.win_type,
        )
    }
}

pub open spec fn chanta_spec(ctx: &WinContext) -> bool {
    !junchan_spec(ctx) && if chiitoitsu_spec(*ctx.hand, ctx.win_tile, ctx.win_type) {
        forall|t: Tile| #[trigger] with_call_tile(ctx.hand.concealed@, ctx.win_tile, ctx.win_type).to_multiset().count(t) > 0 ==> terminal_or_honor_kind(t.kind)
    } else {
        some_split_has(Pattern::OutsideWithHonors, *ctx.hand, ctx.win_tile, ctx.win_type)
    }
}

/// Every meld and the pair hold a terminal; no honors anywhere.
pub fn is_junchan_hand(ctx: &WinContext) -> (b: bool)
    requires
        ctx_ok(ctx),
    ensures
        b == junchan_spec(ctx),
{
    if is_chiitoitsu_hand(ctx.hand, ctx.win_tile, ctx.win_type) {
        let tiles = tiles_with_win_tile(ctx.hand, ctx.win_tile, ctx.win_type);
        return all_tiles_are(&tiles, 3);
    }
    let all = all_tiles_in_hand(ctx.hand, ctx.win_tile, ctx.win_type);
    if !all_tiles_are(&all, 1) {
        proof {
            let m = all@.to_multiset();
            let t = choose|t: Tile| #[trigger] m.count(t) > 0 && !tile_class(1, t);
            assert(any_honor(m));
        }
        return false;
    }
    proof {
        let m = all@.to_multiset();
        assert forall|t: Tile| !(#[trigger] m.count(t) > 0 && is_honor_kind(t.kind)) by {
            if m.count(t) > 0 {
                assert(tile_class(1, t));
            }
        }
    }
    some_split_shows(Pattern::OutsideTerminals, ctx.hand, ctx.win_tile, ctx.win_type)
}

/// Every meld and the pair hold a terminal or an honor (and the hand is not junchan).
pub fn is_chanta_hand(ctx: &WinContext) -> (b: bool)
    requires
        ctx_ok(ctx),
    ensures
        b == chanta_spec(ctx),
{
    if is_junchan_hand(ctx) {
        return false;
    }
    if is_chiitoitsu_hand(ctx.hand, ctx.win_tile, ctx.win_type) {
        let tiles = tiles_with_win_tile(ctx.hand, ctx.win_tile, ctx.win_type);
        return all_tiles_are(&tiles, 2);
    }
    some_split_shows(Pattern::OutsideWithHonors, ctx.hand, ctx.win_tile, ctx.win_type)
}

} // verus!
