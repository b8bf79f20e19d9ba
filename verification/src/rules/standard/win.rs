//! Winning shapes, waits and tile classes of the standard profile.

use vstd::prelude::*;
use vstd::multiset::Multiset;

use crate::hand::{Hand, Meld, MeldKind, copy_tiles, find_tile, remove_first, lemma_remove_first_at};
use crate::scoring::WinType;
use crate::tile::{
    Dragon, Suit, Tile, TileKind, Wind, numbered_tile, red_five_tile, sort_tiles, sorted,
    tile_identity, tile_rank, tile_suit,
};

use super::shape::{can_form_mentsu_and_pair, count_tile, standard_form};

verus! {

broadcast use vstd::seq_lib::group_to_multiset_ensures;

/// A terminal (rank 1 or 9) or an honor (wind or dragon).
pub open spec fn terminal_or_honor_kind(k: TileKind) -> bool {
    match k {
        TileKind::Man(r) => r == 1 || r == 9,
        TileKind::Pin(r) => r == 1 || r == 9,
        TileKind::Sou(r) => r == 1 || r == 9,
        _ => true,
    }
}

/// A simple: a numbered tile of rank 2 through 8.
pub open spec fn simple_tile(t: Tile) -> bool {
    tile_rank(t) matches Some(r) && 2 <= r <= 8
}

/// Seven pairs: fourteen tiles, each face held an even number of times.
pub open spec fn pairs_only(m: Multiset<Tile>) -> bool {
    m.len() == 14 && forall|t: Tile| #[trigger] m.count(t) % 2 == 0
}

/// Thirteen orphans: fourteen terminals and honors covering all thirteen faces.
pub open spec fn kokushi_shape(m: Multiset<Tile>) -> bool {
    &&& m.len() == 14
    &&& forall|t: Tile| #[trigger] m.count(t) > 0 ==> terminal_or_honor_kind(t.kind)
    &&& forall|k: TileKind|
        terminal_or_honor_kind(k) ==> exists|t: Tile| #[trigger] m.count(t) > 0 && t.kind == k
}

/// Tiles of `suit` with rank `r`, red or not.
pub open spec fn rank_count(m: Multiset<Tile>, suit: Suit, r: u8) -> nat {
    m.count(numbered_tile(suit, r)) + m.count(Tile { red: true, ..numbered_tile(suit, r) })
}

/// Nine gates in `suit`: fourteen tiles of that suit, at least three 1s and three 9s and
/// at least one of each rank between.
pub open spec fn nine_gates_in(m: Multiset<Tile>, suit: Suit) -> bool {
    &&& m.len() == 14
    &&& forall|t: Tile|
        #[trigger] m.count(t) > 0 ==> tile_suit(t) == Some(suit) && 1 <= tile_rank(t)->0 <= 9
    &&& rank_count(m, suit, 1) >= 3
    &&& rank_count(m, suit, 9) >= 3
    &&& forall|r: u8| 2 <= r <= 8 ==> #[trigger] rank_count(m, suit, r) >= 1
}

pub open spec fn nine_gates(m: Multiset<Tile>) -> bool {
    nine_gates_in(m, Suit::Man) || nine_gates_in(m, Suit::Pin) || nine_gates_in(m, Suit::Sou)
}

/// The concealed tiles with the winning tile added, unless the hand already counts
/// fourteen tiles (three per meld) and holds that tile.
pub open spec fn with_win_tile(concealed: Seq<Tile>, meld_count: nat, win: Option<Tile>) -> Seq<
    Tile,
> {
    match win {
        Some(t) => if concealed.len() + 3 * meld_count < 14 || !concealed.contains(t) {
            concealed.push(t)
        } else {
            concealed
        },
        None => concealed,
    }
}

/// A complete hand: at most four melds, and either seven pairs, thirteen orphans or nine
/// gates (closed hands only), or a pair with the sets the melds leave to make four.
pub open spec fn winning_shape(m: Multiset<Tile>, meld_count: nat) -> bool {
    &&& meld_count <= 4
    &&& (meld_count == 0 && (pairs_only(m) || kokushi_shape(m) || nine_gates(m))) || standard_form(
        m,
        (4 - meld_count) as nat,
    )
}

pub open spec fn wins_with(concealed: Seq<Tile>, meld_count: nat, win: Option<Tile>) -> bool {
    winning_shape(with_win_tile(concealed, meld_count, win).to_multiset(), meld_count)
}

pub open spec fn winning_hand(h: Hand, win: Option<Tile>) -> bool {
    wins_with(h.concealed@, h.melds@.len(), win)
}

/// The 37 distinct tiles a hand can wait on: each suit's 1–9 with its red five after
/// the five, then the winds, then the dragons.
pub open spec fn wait_tile(i: int) -> Tile {
    if i < 30 {
        let suit = if i < 10 {
            Suit::Man
        } else if i < 20 {
            Suit::Pin
        } else {
            Suit::Sou
        };
        let j = i % 10;
        if j < 5 {
            numbered_tile(suit, (j + 1) as u8)
        } else if j == 5 {
            red_five_tile(suit)
        } else {
            numbered_tile(suit, j as u8)
        }
    } else if i < 34 {
        let w = i - 30;
        Tile {
            kind: TileKind::Wind(
                if w == 0 {
                    Wind::East
                } else if w == 1 {
                    Wind::South
                } else if w == 2 {
                    Wind::West
                } else {
                    Wind::North
                },
            ),
            red: false,
        }
    } else {
        let d = i - 34;
        Tile {
            kind: TileKind::Dragon(
                if d == 0 {
                    Dragon::White
                } else if d == 1 {
                    Dragon::Green
                } else {
                    Dragon::Red
                },
            ),
            red: false,
        }
    }
}

/// One more tile, among the 37 distinct ones, completes the hand.
pub open spec fn tenpai_with(concealed: Seq<Tile>, meld_count: nat) -> bool {
    exists|i: int| 0 <= i < 37 && #[trigger] wins_with(concealed, meld_count, Some(wait_tile(i)))
}

pub open spec fn tenpai_hand(h: Hand) -> bool {
    tenpai_with(h.concealed@, h.melds@.len())
}

/// Concealed tiles plus the winning tile: a ron adds it to a hand of fewer than fourteen
/// concealed tiles, a tsumo adds it unless the hand already holds it.
pub open spec fn with_call_tile(concealed: Seq<Tile>, win_tile: Tile, win_type: WinType) -> Seq<
    Tile,
> {
    match win_type {
        WinType::Ron { .. } => if concealed.len() < 14 {
            concealed.push(win_tile)
        } else {
            concealed
        },
        WinType::Tsumo => if !concealed.contains(win_tile) {
            concealed.push(win_tile)
        } else {
            concealed
        },
    }
}

/// The tiles of all melds, in meld order.
pub open spec fn meld_tiles_flat(ms: Seq<Meld>) -> Seq<Tile>
    decreases ms.len(),
{
    if ms.len() == 0 {
        Seq::empty()
    } else {
        meld_tiles_flat(ms.drop_last()) + ms.last().tiles@
    }
}

/// Every tile of the winning hand: concealed, winning tile and melds.
pub open spec fn full_hand(h: Hand, win_tile: Tile, win_type: WinType) -> Multiset<Tile> {
    (with_call_tile(h.concealed@, win_tile, win_type) + meld_tiles_flat(h.melds@)).to_multiset()
}

fn is_terminal_or_honor_kind(k: TileKind) -> (b: bool)
    ensures
        b == terminal_or_honor_kind(k),
{
    match k {
        TileKind::Man(r) => r == 1 || r == 9,
        TileKind::Pin(r) => r == 1 || r == 9,
        TileKind::Sou(r) => r == 1 || r == 9,
        _ => true,
    }
}

/// A numbered tile of rank 2 through 8.
pub fn is_simple(tile: Tile) -> (b: bool)
    ensures
        b == simple_tile(tile),
{
    match tile.rank() {
        Some(r) => 2 <= r && r <= 8,
        None => false,
    }
}

/// A rank 1 or 9 tile, a wind or a dragon.
pub fn is_terminal_or_honor(tile: Tile) -> (b: bool)
    ensures
        b == terminal_or_honor_kind(tile.kind),
{
    is_terminal_or_honor_kind(tile.kind)
}

/// Fu of a triplet: 2 open simple, 4 open terminal/honor or closed simple, 8 closed
/// terminal/honor.
pub fn triplet_fu(tile: Tile, closed: bool) -> (fu: u8)
    ensures
        fu == (if closed { 2u8 } else { 1u8 }) * (if terminal_or_honor_kind(tile.kind) {
            4u8
        } else {
            2u8
        }),
{
    let simple = !is_terminal_or_honor(tile);
    if closed && simple {
        4
    } else if closed {
        8
    } else if simple {
        2
    } else {
        4
    }
}

/// Seven pairs in a list of tiles.
fn is_pairs_only(tiles: &[Tile]) -> (b: bool)
    ensures
        b == pairs_only(tiles@.to_multiset()),
{
    if tiles.len() != 14 {
        return false;
    }
    let mut i: usize = 0;
    while i < tiles.len()
        invariant
            i <= tiles@.len(),
            forall|k: int| 0 <= k < i ==> #[trigger] tiles@.to_multiset().count(tiles@[k]) % 2 == 0,
        decreases tiles@.len() - i,
    {
        if count_tile(tiles, tiles[i]) % 2 != 0 {
            return false;
        }
        i = i + 1;
    }
    proof {
        let m = tiles@.to_multiset();
        assert forall|t: Tile| #[trigger] m.count(t) % 2 == 0 by {
            if m.count(t) > 0 {
                assert(tiles@.contains(t));
                let k = choose|k: int| 0 <= k < tiles@.len() && tiles@[k] == t;
                assert(m.count(tiles@[k]) % 2 == 0);
            }
        }
    }
    true
}

pub fn has_kind(tiles: &[Tile], k: TileKind) -> (b: bool)
    ensures
        b == exists|t: Tile| #[trigger] tiles@.to_multiset().count(t) > 0 && t.kind == k,
{
    let mut i: usize = 0;
    while i < tiles.len()
        invariant
            i <= tiles@.len(),
            forall|j: int| 0 <= j < i ==> (#[trigger] tiles@[j]).kind != k,
        decreases tiles@.len() - i,
    {
        if tiles[i].kind == k {
            proof {
                assert(tiles@.contains(tiles@[i as int]));
                assert(tiles@.to_multiset().count(tiles@[i as int]) > 0);
            }
            return true;
        }
        i = i + 1;
    }
    proof {
        assert forall|t: Tile| #[trigger] tiles@.to_multiset().count(t) > 0 implies t.kind != k by {
            assert(tiles@.contains(t));
        }
    }
    false
}

/// Thirteen orphans: the 1 and 9 of each suit, each wind and each dragon, one of them twice.
pub fn is_kokushi_tiles(tiles: &[Tile]) -> (b: bool)
    ensures
        b == kokushi_shape(tiles@.to_multiset()),
{
    let ghost m = tiles@.to_multiset();
    if tiles.len() != 14 {
        return false;
    }
    let mut i: usize = 0;
    while i < tiles.len()
        invariant
            i <= tiles@.len(),
            m == tiles@.to_multiset(),
            forall|j: int| 0 <= j < i ==> terminal_or_honor_kind((#[trigger] tiles@[j]).kind),
        decreases tiles@.len() - i,
    {
        if !is_terminal_or_honor(tiles[i]) {
            proof {
                assert(tiles@.contains(tiles@[i as int]));
                assert(m.count(tiles@[i as int]) > 0);
            }
            return false;
        }
        i = i + 1;
    }
    proof {
        assert forall|t: Tile| #[trigger] m.count(t) > 0 implies terminal_or_honor_kind(t.kind) by {
            assert(tiles@.contains(t));
        }
    }
    let all = has_kind(tiles, TileKind::Man(1)) && has_kind(tiles, TileKind::Man(9)) && has_kind(
        tiles,
        TileKind::Pin(1),
    ) && has_kind(tiles, TileKind::Pin(9)) && has_kind(tiles, TileKind::Sou(1)) && has_kind(
        tiles,
        TileKind::Sou(9),
    ) && has_kind(tiles, TileKind::Wind(Wind::East)) && has_kind(tiles, TileKind::Wind(Wind::South))
        && has_kind(tiles, TileKind::Wind(Wind::West)) && has_kind(
        tiles,
        TileKind::Wind(Wind::North),
    ) && has_kind(tiles, TileKind::Dragon(Dragon::White)) && has_kind(
        tiles,
        TileKind::Dragon(Dragon::Green),
    ) && has_kind(tiles, TileKind::Dragon(Dragon::Red));
    proof {
        if !all {
            assert(terminal_or_honor_kind(TileKind::Man(1)));
            assert(terminal_or_honor_kind(TileKind::Man(9)));
            assert(terminal_or_honor_kind(TileKind::Pin(1)));
            assert(terminal_or_honor_kind(TileKind::Pin(9)));
            assert(terminal_or_honor_kind(TileKind::Sou(1)));
            assert(terminal_or_honor_kind(TileKind::Sou(9)));
            assert(terminal_or_honor_kind(TileKind::Wind(Wind::East)));
            assert(terminal_or_honor_kind(TileKind::Wind(Wind::South)));
            assert(terminal_or_honor_kind(TileKind::Wind(Wind::West)));
            assert(terminal_or_honor_kind(TileKind::Wind(Wind::North)));
            assert(terminal_or_honor_kind(TileKind::Dragon(Dragon::White)));
            assert(terminal_or_honor_kind(TileKind::Dragon(Dragon::Green)));
            assert(terminal_or_honor_kind(TileKind::Dragon(Dragon::Red)));
        }
        if all {
            assert forall|k: TileKind| terminal_or_honor_kind(k) implies exists|t: Tile|
                #[trigger] m.count(t) > 0 && t.kind == k by {
                match k {
                    TileKind::Wind(w) => {
                        match w {
                            Wind::East => {},
                            Wind::South => {},
                            Wind::West => {},
                            Wind::North => {},
                        }
                    },
                    TileKind::Dragon(d) => {
                        match d {
                            Dragon::White => {},
                            Dragon::Green => {},
                            Dragon::Red => {},
                        }
                    },
                    _ => {},
                }
            }
        }
    }
    all
}

fn rank_count_exec(tiles: &[Tile], suit: Suit, r: u8) -> (n: usize)
    requires
        1 <= r <= 9,
        tiles@.len() <= 14,
    ensures
        n == rank_count(tiles@.to_multiset(), suit, r),
{
    let plain = Tile::numbered(suit, r);
    let red = Tile { kind: plain.kind, red: true };
    let a = count_tile(tiles, plain);
    let b = count_tile(tiles, red);
    proof {
        assert(a <= tiles@.len() && b <= tiles@.len()) by {
            assert(tiles@.to_multiset().count(plain) <= tiles@.to_multiset().len());
            assert(tiles@.to_multiset().count(red) <= tiles@.to_multiset().len());
        }
        assert(red == Tile { red: true, ..numbered_tile(suit, r) });
    }
    a + b
}

fn is_nine_gates_in(tiles: &[Tile], suit: Suit) -> (b: bool)
    requires
        tiles@.len() <= 14,
    ensures
        b == nine_gates_in(tiles@.to_multiset(), suit),
{
    let ghost m = tiles@.to_multiset();
    if tiles.len() != 14 {
        return false;
    }
    let mut i: usize = 0;
    while i < tiles.len()
        invariant
            i <= tiles@.len(),
            m == tiles@.to_multiset(),
            forall|j: int|
                0 <= j < i ==> tile_suit(#[trigger] tiles@[j]) == Some(suit) && 1 <= tile_rank(
                    tiles@[j],
                )->0 <= 9,
        decreases tiles@.len() - i,
    {
        let ok = match (tiles[i].suit(), tiles[i].rank()) {
            (Some(s), Some(r)) => s == suit && 1 <= r && r <= 9,
            _ => false,
        };
        if !ok {
            proof {
                assert(tiles@.contains(tiles@[i as int]));
                assert(m.count(tiles@[i as int]) > 0);
            }
            return false;
        }
        i = i + 1;
    }
    proof {
        assert forall|t: Tile| #[trigger] m.count(t) > 0 implies tile_suit(t) == Some(suit) && 1
            <= tile_rank(t)->0 <= 9 by {
            assert(tiles@.contains(t));
        }
    }
    if rank_count_exec(tiles, suit, 1) < 3 || rank_count_exec(tiles, suit, 9) < 3 {
        return false;
    }
    let mut r: u8 = 2;
    while r <= 8
        invariant
            2 <= r <= 9,
            forall|q: u8| 2 <= q < r ==> #[trigger] rank_count(m, suit, q) >= 1,
            m == tiles@.to_multiset(),
            tiles@.len() == 14,
        decreases 9 - r,
    {
        if rank_count_exec(tiles, suit, r) < 1 {
            return false;
        }
        r = r + 1;
    }
    true
}

/// Nine gates in some suit.
pub fn is_nine_gates_tiles(tiles: &[Tile]) -> (b: bool)
    ensures
        b == nine_gates(tiles@.to_multiset()),
{
    if tiles.len() != 14 {
        return false;
    }
    is_nine_gates(tiles)
}

fn is_nine_gates(tiles: &[Tile]) -> (b: bool)
    requires
        tiles@.len() <= 14,
    ensures
        b == nine_gates(tiles@.to_multiset()),
{
    is_nine_gates_in(tiles, Suit::Man) || is_nine_gates_in(tiles, Suit::Pin) || is_nine_gates_in(
        tiles,
        Suit::Sou,
    )
}

/// Whether the concealed tiles, with `win` added as the rules say, complete the hand.
fn wins_tiles(concealed: &[Tile], meld_count: usize, win: Option<Tile>) -> (b: bool)
    ensures
        b == wins_with(concealed@, meld_count as nat, win),
{
    if meld_count > 4 {
        return false;
    }
    let mut tiles = copy_tiles(concealed);
    if let Some(t) = win {
        let limit = 14 - 3 * meld_count;
        if concealed.len() < limit || find_tile(concealed, t).is_none() {
            tiles.push(t);
        }
    }
    let ghost full = with_win_tile(concealed@, meld_count as nat, win);
    assert(tiles@ == full);
    sort_tiles(&mut tiles);
    if meld_count == 0 {
        if is_pairs_only(tiles.as_slice()) || is_kokushi_tiles(tiles.as_slice()) {
            return true;
        }
        if tiles.len() <= 14 && is_nine_gates(tiles.as_slice()) {
            return true;
        }
        proof {
            if tiles@.len() > 14 {
                assert(!nine_gates_in(tiles@.to_multiset(), Suit::Man));
            }
        }
    }
    can_form_mentsu_and_pair(&tiles, 4 - meld_count)
}

/// Whether the hand is complete with `win_tile` (or as it stands, for `None`).
pub fn is_winning_hand(hand: &Hand, win_tile: Option<Tile>) -> (b: bool)
    ensures
        b == winning_hand(*hand, win_tile),
{
    wins_tiles(hand.concealed.tiles.as_slice(), hand.melds.len(), win_tile)
}

fn wait_tile_exec(i: usize) -> (t: Tile)
    requires
        i < 37,
    ensures
        t == wait_tile(i as int),
{
    if i < 30 {
        let suit = if i < 10 {
            Suit::Man
        } else if i < 20 {
            Suit::Pin
        } else {
            Suit::Sou
        };
        let j = i % 10;
        if j < 5 {
            Tile::numbered(suit, (j + 1) as u8)
        } else if j == 5 {
            Tile::red_five(suit)
        } else {
            Tile::numbered(suit, j as u8)
        }
    } else if i < 34 {
        Tile::wind(Wind::from_index(i - 30))
    } else {
        let d = i - 34;
        Tile::dragon(
            if d == 0 {
                Dragon::White
            } else if d == 1 {
                Dragon::Green
            } else {
                Dragon::Red
            },
        )
    }
}

/// The 37 distinct tiles, in wait order.
pub fn all_wait_tiles() -> (v: Vec<Tile>)
    ensures
        v@.len() == 37,
        forall|i: int| 0 <= i < 37 ==> v@[i] == wait_tile(i),
{
    let mut v: Vec<Tile> = Vec::new();
    let mut i: usize = 0;
    while i < 37
        invariant
            i <= 37,
            v@.len() == i,
            forall|k: int| 0 <= k < i ==> v@[k] == wait_tile(k),
        decreases 37 - i,
    {
        v.push(wait_tile_exec(i));
        i = i + 1;
    }
    v
}

fn tenpai_tiles(concealed: &[Tile], meld_count: usize) -> (b: bool)
    ensures
        b == tenpai_with(concealed@, meld_count as nat),
{
    let waits = all_wait_tiles();
    let mut i: usize = 0;
    while i < waits.len()
        invariant
            waits@.len() == 37,
            forall|k: int| 0 <= k < 37 ==> waits@[k] == wait_tile(k),
            i <= 37,
            forall|k: int|
                0 <= k < i ==> !#[trigger] wins_with(concealed@, meld_count as nat, Some(wait_tile(k))),
        decreases 37 - i,
    {
        if wins_tiles(concealed, meld_count, Some(waits[i])) {
            proof {
                assert(wins_with(concealed@, meld_count as nat, Some(wait_tile(i as int))));
            }
            return true;
        }
        i = i + 1;
    }
    false
}

/// Whether some tile would complete the hand.
pub fn is_tenpai(hand: &Hand) -> (b: bool)
    ensures
        b == tenpai_hand(*hand),
{
    tenpai_tiles(hand.concealed.tiles.as_slice(), hand.melds.len())
}

/// Whether the hand stays tenpai after removing one tile from the concealed hand.
pub fn is_tenpai_after_discard(hand: &Hand, discard: Tile) -> (b: bool)
    requires
        hand.melds@.len() <= 4,
        hand.concealed@.len() <= 136,
    ensures
        b == (hand.concealed@.contains(discard) && tenpai_with(
            remove_first(hand.concealed@, discard),
            hand.melds@.len(),
        )),
{
    let concealed = hand.concealed.tiles.as_slice();
    match find_tile(concealed, discard) {
        Some(pos) => {
            let mut rest = copy_tiles(concealed);
            rest.remove(pos);
            proof {
                lemma_remove_first_at(concealed@, discard, pos as int);
            }
            tenpai_tiles(rest.as_slice(), hand.melds.len())
        },
        None => false,
    }
}

/// Concealed tiles plus the winning tile (a ron always adds the called tile to a short hand).
pub fn tiles_with_win_tile(hand: &Hand, win_tile: Tile, win_type: WinType) -> (v: Vec<Tile>)
    ensures
        v@ == with_call_tile(hand.concealed@, win_tile, win_type),
{
    let mut tiles = copy_tiles(hand.concealed.tiles.as_slice());
    match win_type {
        WinType::Ron { .. } => {
            if tiles.len() < 14 {
                tiles.push(win_tile);
            }
        },
        WinType::Tsumo => {
            if find_tile(hand.concealed.tiles.as_slice(), win_tile).is_none() {
                tiles.push(win_tile);
            }
        },
    }
    tiles
}

/// Seven pairs with the winning tile, for a hand without melds.
pub fn is_chiitoitsu_hand(hand: &Hand, win_tile: Tile, win_type: WinType) -> (b: bool)
    ensures
        b == (hand.melds@.len() == 0 && pairs_only(
            with_call_tile(hand.concealed@, win_tile, win_type).to_multiset(),
        )),
{
    if hand.melds.len() != 0 {
        return false;
    }
    let tiles = tiles_with_win_tile(hand, win_tile, win_type);
    is_pairs_only(tiles.as_slice())
}

/// Every tile of the hand with the winning tile, melds included, in display order.
pub fn all_tiles_in_hand(hand: &Hand, win_tile: Tile, win_type: WinType) -> (v: Vec<Tile>)
    ensures
        sorted(v@),
        v@.to_multiset() == full_hand(*hand, win_tile, win_type),
{
    let mut tiles = tiles_with_win_tile(hand, win_tile, win_type);
    let ghost base = tiles@;
    let mut i: usize = 0;
    while i < hand.melds.len()
        invariant
            i <= hand.melds@.len(),
            tiles@ == base + meld_tiles_flat(hand.melds@.take(i as int)),
        decreases hand.melds@.len() - i,
    {
        let meld_tiles = hand.melds[i].tiles.as_slice();
        let mut j: usize = 0;
        let ghost before = tiles@;
        while j < meld_tiles.len()
            invariant
                j <= meld_tiles@.len(),
                tiles@ == before + meld_tiles@.take(j as int),
            decreases meld_tiles@.len() - j,
        {
            tiles.push(meld_tiles[j]);
            j = j + 1;
            assert(tiles@ =~= before + meld_tiles@.take(j as int));
        }
        proof {
            assert(meld_tiles@.take(meld_tiles@.len() as int) =~= meld_tiles@);
            assert(hand.melds@.take(i + 1).drop_last() =~= hand.melds@.take(i as int));
            assert(tiles@ =~= base + meld_tiles_flat(hand.melds@.take(i + 1)));
        }
        i = i + 1;
    }
    proof {
        assert(hand.melds@.take(hand.melds@.len() as int) =~= hand.melds@);
    }
    sort_tiles(&mut tiles);
    tiles
}

/// Whether every tile of the winning hand is a simple.
pub fn is_tanyao_hand(hand: &Hand, win_tile: Tile, win_type: WinType) -> (b: bool)
    ensures
        b == forall|t: Tile| #[trigger] full_hand(*hand, win_tile, win_type).count(t) > 0 ==> simple_tile(t),
{
    let tiles = all_tiles_in_hand(hand, win_tile, win_type);
    let ghost m = full_hand(*hand, win_tile, win_type);
    let mut i: usize = 0;
    while i < tiles.len()
        invariant
            i <= tiles@.len(),
            tiles@.to_multiset() == m,
            m == full_hand(*hand, win_tile, win_type),
            forall|j: int| 0 <= j < i ==> simple_tile(#[trigger] tiles@[j]),
        decreases tiles@.len() - i,
    {
        if !is_simple(tiles[i]) {
            proof {
                assert(tiles@.contains(tiles@[i as int]));
                assert(full_hand(*hand, win_tile, win_type).count(tiles@[i as int]) > 0);
            }
            return false;
        }
        i = i + 1;
    }
    proof {
        assert forall|t: Tile| #[trigger] m.count(t) > 0 implies simple_tile(t) by {
            assert(tiles@.contains(t));
        }
    }
    true
}

/// The hand holds the face of `tile` concealed, or in a pon or kan.
pub open spec fn holds_yakuhai(h: Hand, tile: Tile) -> bool {
    ||| exists|i: int|
        0 <= i < h.concealed@.len() && tile_identity(#[trigger] h.concealed@[i]) == tile_identity(
            tile,
        )
    ||| exists|i: int, j: int|
        0 <= i < h.melds@.len() && 0 <= j < h.melds@[i].tiles@.len() && h.melds@[i].kind
            != MeldKind::Chi && tile_identity(#[trigger] h.melds@[i].tiles@[j]) == tile_identity(
            tile,
        )
}

/// Whether the hand holds the face of `tile` concealed, or in a pon or kan.
pub fn hand_contains_yakuhai(hand: &Hand, tile: Tile) -> (b: bool)
    ensures
        b == holds_yakuhai(*hand, tile),
{
    let concealed = hand.concealed.tiles.as_slice();
    let mut i: usize = 0;
    while i < concealed.len()
        invariant
            i <= concealed@.len(),
            concealed@ == hand.concealed@,
            forall|k: int| 0 <= k < i ==> tile_identity(#[trigger] concealed@[k]) != tile_identity(tile),
        decreases concealed@.len() - i,
    {
        if concealed[i].matches_identity(tile) {
            proof {
                assert(tile_identity(hand.concealed@[i as int]) == tile_identity(tile));
            }
            return true;
        }
        i = i + 1;
    }
    let mut m: usize = 0;
    while m < hand.melds.len()
        invariant
            m <= hand.melds@.len(),
            forall|k: int| 0 <= k < concealed@.len() ==> tile_identity(#[trigger] concealed@[k]) != tile_identity(tile),
            concealed@ == hand.concealed@,
            forall|a: int, b: int|
                0 <= a < m && 0 <= b < hand.melds@[a].tiles@.len() && hand.melds@[a].kind
                    != MeldKind::Chi ==> tile_identity(#[trigger] hand.melds@[a].tiles@[b])
                    != tile_identity(tile),
        decreases hand.melds@.len() - m,
    {
        let meld = &hand.melds[m];
        if meld.kind != MeldKind::Chi {
            let mut j: usize = 0;
            while j < meld.tiles.len()
                invariant
                    j <= meld.tiles@.len(),
                    m < hand.melds@.len(),
                    *meld == hand.melds@[m as int],
                    meld.kind != MeldKind::Chi,
                    forall|b: int| 0 <= b < j ==> tile_identity(#[trigger] meld.tiles@[b]) != tile_identity(tile),
                decreases meld.tiles@.len() - j,
            {
                if meld.tiles[j].matches_identity(tile) {
                    proof {
                        assert(hand.melds@[m as int].tiles@[j as int] == meld.tiles@[j as int]);
                        assert(tile_identity(hand.melds@[m as int].tiles@[j as int]) == tile_identity(
                            tile,
                        ));
                    }
                    return true;
                }
                j = j + 1;
            }
        }
        m = m + 1;
    }
    false
}

/// Sets take three tiles each.
proof fn lemma_splits_len(m: Multiset<Tile>, n: nat)
    requires
        super::shape::splits_into_sets(m, n),
    ensures
        m.len() == 3 * n,
    decreases n,
{
    broadcast use vstd::multiset::group_multiset_axioms;
    if n > 0 {
        let (a, b, c) = choose|a: Tile, b: Tile, c: Tile|
            #[trigger] super::shape::is_set(a, b, c) && super::shape::three(a, b, c).subset_of(m)
                && super::shape::splits_into_sets(m.sub(super::shape::three(a, b, c)), (n - 1) as nat);
        lemma_splits_len(m.sub(super::shape::three(a, b, c)), (n - 1) as nat);
        assert(super::shape::three(a, b, c).len() == 3);
    }
}

/// A winning hand holds at most fourteen concealed tiles.
pub proof fn lemma_winning_len(h: Hand, win: Option<Tile>)
    requires
        winning_hand(h, win),
    ensures
        h.concealed@.len() <= 14,
{
    broadcast use vstd::multiset::group_multiset_axioms;
    let s = with_win_tile(h.concealed@, h.melds@.len(), win);
    let m = s.to_multiset();
    s.to_multiset_ensures();
    let k = h.melds@.len();
    if k == 0 && (pairs_only(m) || kokushi_shape(m) || nine_gates(m)) {
    } else {
        let p = choose|p: Tile| m.count(p) >= 2 && #[trigger] super::shape::splits_into_sets(m.remove(p).remove(p), (4 - k) as nat);
        lemma_splits_len(m.remove(p).remove(p), (4 - k) as nat);
    }
    assert(s.len() >= h.concealed@.len());
}

/// A hand within the engine's sizes holds at most 32 tiles with the winning tile.
pub proof fn lemma_full_hand_len(h: Hand, win_tile: Tile, win_type: WinType)
    requires
        crate::hand::hand_play_ok(h),
    ensures
        full_hand(h, win_tile, win_type).len() <= 32,
{
    lemma_flat_len(h.melds@);
}

proof fn lemma_flat_len(ms: Seq<Meld>)
    requires
        forall|i: int| 0 <= i < ms.len() ==> (#[trigger] ms[i]).tiles@.len() <= 4,
    ensures
        meld_tiles_flat(ms).len() <= 4 * ms.len(),
    decreases ms.len(),
{
    if ms.len() > 0 {
        assert forall|i: int| 0 <= i < ms.drop_last().len() implies (#[trigger] ms.drop_last()[i]).tiles@.len() <= 4 by {
            assert(ms.drop_last()[i] == ms[i]);
        }
        lemma_flat_len(ms.drop_last());
        assert(ms.last() == ms[ms.len() - 1]);
    }
}

} // verus!
