//! Tiles, their notation, sort order and the standard tile set.

pub mod identity;
pub mod kind;
pub mod sort;

use vstd::prelude::*;
use vstd::string::*;

use crate::error::Error;
use crate::text::{decimal, decimal_string, digit_char};

pub use identity::{TileIdentity, tile_identity};
pub use kind::{
    Dragon, Suit, TileKind, Wind, dragon_from_label, dragon_index, dragon_label, kind_key, kind_rank,
    kind_suit, suit_char, suit_from_char, suit_index, wind_index, wind_label,
};
pub use sort::{sort_tiles, sorted, tile_key};

verus! {

/// A single mahjong tile.
#[derive(Debug, Clone, Copy, PartialEq, Eq, Hash, PartialOrd, Ord, Structural)]
pub struct Tile {
    pub kind: TileKind,
    /// `true` only for aka (red) five of a numbered suit.
    pub red: bool,
}

/// The tile of `suit` and `rank` without the red marking.
pub open spec fn numbered_tile(suit: Suit, rank: u8) -> Tile {
    Tile {
        kind: match suit {
            Suit::Man => TileKind::Man(rank),
            Suit::Pin => TileKind::Pin(rank),
            Suit::Sou => TileKind::Sou(rank),
        },
        red: false,
    }
}

/// The red five of `suit`.
pub open spec fn red_five_tile(suit: Suit) -> Tile {
    Tile { red: true, ..numbered_tile(suit, 5) }
}

pub open spec fn tile_suit(t: Tile) -> Option<Suit> {
    kind_suit(t.kind)
}

pub open spec fn tile_rank(t: Tile) -> Option<u8> {
    kind_rank(t.kind)
}

/// A tile that can occur in play: numbered ranks 1 through 9, only fives may be red.
pub open spec fn tile_wf(t: Tile) -> bool {
    &&& (tile_rank(t) matches Some(r) ==> 1 <= r <= 9)
    &&& (t.red ==> tile_rank(t) == Some(5u8))
}

/// Notation of a tile: `1m`…`9s` (with a trailing `r` for red), `E S W N`, `wd gd rd`.
pub open spec fn tile_label(t: Tile) -> Seq<char> {
    match t.kind {
        TileKind::Man(r) => decimal(r as nat) + seq!['m'] + if t.red { seq!['r'] } else { seq![] },
        TileKind::Pin(r) => decimal(r as nat) + seq!['p'] + if t.red { seq!['r'] } else { seq![] },
        TileKind::Sou(r) => decimal(r as nat) + seq!['s'] + if t.red { seq!['r'] } else { seq![] },
        TileKind::Wind(w) => wind_label(w),
        TileKind::Dragon(d) => dragon_label(d),
    }
}

/// Value of an ASCII decimal digit.
pub open spec fn digit_value(c: char) -> Option<u8> {
    if c == '0' {
        Some(0u8)
    } else if c == '1' {
        Some(1u8)
    } else if c == '2' {
        Some(2u8)
    } else if c == '3' {
        Some(3u8)
    } else if c == '4' {
        Some(4u8)
    } else if c == '5' {
        Some(5u8)
    } else if c == '6' {
        Some(6u8)
    } else if c == '7' {
        Some(7u8)
    } else if c == '8' {
        Some(8u8)
    } else if c == '9' {
        Some(9u8)
    } else {
        None
    }
}

pub open spec fn wind_from_char(c: char) -> Option<Wind> {
    if c == 'E' {
        Some(Wind::East)
    } else if c == 'S' {
        Some(Wind::South)
    } else if c == 'W' {
        Some(Wind::West)
    } else if c == 'N' {
        Some(Wind::North)
    } else {
        None
    }
}

/// The tile named by a notation string, if any.
///
/// A trailing `r` marks a red five; a single wind letter names that wind (a trailing `r`
/// is then ignored); `wd`/`gd`/`rd` name a dragon and may not carry `r`; otherwise the
/// text must be exactly a digit 1–9 followed by `m`, `p` or `s`, and only a 5 may be red.
pub open spec fn parse_label(cs: Seq<char>) -> Option<Tile> {
    let red = cs.len() > 0 && cs.last() == 'r';
    let base = if red { cs.drop_last() } else { cs };
    if base.len() == 1 && wind_from_char(base[0]) is Some {
        Some(Tile { kind: TileKind::Wind(wind_from_char(base[0])->0), red: false })
    } else if dragon_from_label(base) is Some {
        if red {
            None
        } else {
            Some(Tile { kind: TileKind::Dragon(dragon_from_label(base)->0), red: false })
        }
    } else if base.len() != 2 {
        None
    } else if digit_value(base[0]) is None {
        None
    } else if !(1 <= digit_value(base[0])->0 <= 9) {
        None
    } else if suit_from_char(base[1]) is None {
        None
    } else if red && digit_value(base[0])->0 != 5 {
        None
    } else if red {
        Some(red_five_tile(suit_from_char(base[1])->0))
    } else {
        Some(numbered_tile(suit_from_char(base[1])->0, digit_value(base[0])->0))
    }
}

/// Position `i` (0 ≤ i < 136) of the standard set in its construction order:
/// man, pin, sou ranks 1–9 with four copies each (the first five of a suit red when aka dora
/// is on), then four of each wind, then four of each dragon.
pub open spec fn standard_tile_at(i: int, aka_dora: bool) -> Tile {
    if i < 108 {
        let suit = if i < 36 { Suit::Man } else if i < 72 { Suit::Pin } else { Suit::Sou };
        let within = i % 36;
        let rank = (within / 4 + 1) as u8;
        let copy = within % 4;
        if aka_dora && rank == 5 && copy == 0 {
            red_five_tile(suit)
        } else {
            numbered_tile(suit, rank)
        }
    } else if i < 124 {
        let w = (i - 108) / 4;
        Tile {
            kind: TileKind::Wind(
                if w == 0 { Wind::East } else if w == 1 { Wind::South } else if w == 2 { Wind::West } else { Wind::North },
            ),
            red: false,
        }
    } else {
        let d = (i - 124) / 4;
        Tile {
            kind: TileKind::Dragon(
                if d == 0 { Dragon::White } else if d == 1 { Dragon::Green } else { Dragon::Red },
            ),
            red: false,
        }
    }
}

/// The standard 136-tile set in construction order.
pub open spec fn standard_set_seq(aka_dora: bool) -> Seq<Tile> {
    Seq::new(136, |i: int| standard_tile_at(i, aka_dora))
}

impl Tile {
    pub fn new(kind: TileKind, red: bool) -> (t: Tile)
        ensures
            t == (Tile { kind, red }),
    {
        Tile { kind, red }
    }

    pub fn kind(self) -> (k: TileKind)
        ensures
            k == self.kind,
    {
        self.kind
    }

    pub fn is_red(self) -> (r: bool)
        ensures
            r == self.red,
    {
        self.red
    }

    pub fn man(rank: u8) -> (t: Tile)
        requires
            1 <= rank <= 9,
        ensures
            t == numbered_tile(Suit::Man, rank),
    {
        Tile::numbered(Suit::Man, rank)
    }

    pub fn pin(rank: u8) -> (t: Tile)
        requires
            1 <= rank <= 9,
        ensures
            t == numbered_tile(Suit::Pin, rank),
    {
        Tile::numbered(Suit::Pin, rank)
    }

    pub fn sou(rank: u8) -> (t: Tile)
        requires
            1 <= rank <= 9,
        ensures
            t == numbered_tile(Suit::Sou, rank),
    {
        Tile::numbered(Suit::Sou, rank)
    }

    pub fn numbered(suit: Suit, rank: u8) -> (t: Tile)
        requires
            1 <= rank <= 9,
        ensures
            t == numbered_tile(suit, rank),
    {
        let kind = match suit {
            Suit::Man => TileKind::Man(rank),
            Suit::Pin => TileKind::Pin(rank),
            Suit::Sou => TileKind::Sou(rank),
        };
        Tile { kind, red: false }
    }

    pub fn red_five(suit: Suit) -> (t: Tile)
        ensures
            t == red_five_tile(suit),
    {
        let kind = match suit {
            Suit::Man => TileKind::Man(5),
            Suit::Pin => TileKind::Pin(5),
            Suit::Sou => TileKind::Sou(5),
        };
        Tile { kind, red: true }
    }

    pub fn wind(wind: Wind) -> (t: Tile)
        ensures
            t == (Tile { kind: TileKind::Wind(wind), red: false }),
    {
        Tile { kind: TileKind::Wind(wind), red: false }
    }

    pub fn dragon(dragon: Dragon) -> (t: Tile)
        ensures
            t == (Tile { kind: TileKind::Dragon(dragon), red: false }),
    {
        Tile { kind: TileKind::Dragon(dragon), red: false }
    }

    pub fn suit(self) -> (r: Option<Suit>)
        ensures
            r == tile_suit(self),
    {
        self.kind.suit()
    }

    pub fn rank(self) -> (r: Option<u8>)
        ensures
            r == tile_rank(self),
    {
        self.kind.rank()
    }

    /// Sort key: man → pin → sou → winds → dragons; normal five before red five.
    pub fn key(self) -> (k: u32)
        ensures
            k == tile_key(self),
    {
        self.kind.key() * 2 + if self.red { 1u32 } else { 0u32 }
    }

    /// Total ordering for hand display: man → pin → sou → winds → dragons;
    /// normal five before red five within the same suit.
    pub fn cmp_sort(self, other: Tile) -> (o: std::cmp::Ordering)
        ensures
            (o == std::cmp::Ordering::Less) == (tile_key(self) < tile_key(other)),
            (o == std::cmp::Ordering::Equal) == (self == other),
            (o == std::cmp::Ordering::Greater) == (tile_key(self) > tile_key(other)),
    {
        proof {
            sort::lemma_tile_key_injective(self, other);
        }
        let a = self.key();
        let b = other.key();
        if a < b {
            std::cmp::Ordering::Less
        } else if a == b {
            std::cmp::Ordering::Equal
        } else {
            std::cmp::Ordering::Greater
        }
    }

    /// Notation of the tile (`1m`, `5pr`, `E`, `rd`).
    pub fn to_string(&self) -> (s: String)
        ensures
            s@ == tile_label(*self),
    {
        match self.kind {
            TileKind::Man(r) => {
                proof { reveal_strlit("m"); }
                numbered_label(r, "m", self.red)
            },
            TileKind::Pin(r) => {
                proof { reveal_strlit("p"); }
                numbered_label(r, "p", self.red)
            },
            TileKind::Sou(r) => {
                proof { reveal_strlit("s"); }
                numbered_label(r, "s", self.red)
            },
            TileKind::Wind(w) => String::from_str(w.as_str()),
            TileKind::Dragon(d) => String::from_str(d.as_str()),
        }
    }

    /// Parses tile notation; the inverse of [`Tile::to_string`] on tiles that occur in play.
    pub fn parse(s: &str) -> (r: Result<Tile, Error>)
        ensures
            parse_label(s@) matches Some(t) ==> r == Ok::<Tile, Error>(t),
            parse_label(s@) is None ==> (r matches Err(Error::InvalidTileString(x)) && x@ == s@),
            r matches Ok(t) ==> s@ == tile_label(t) || (t.kind is Wind && s@ == tile_label(t).push('r')),
    {
        match parse_chars(s) {
            Some(t) => {
                proof {
                    lemma_parse_label_unique(s@, t);
                }
                Ok(t)
            },
            None => Err(Error::InvalidTileString(s.to_owned())),
        }
    }
}

fn numbered_label(rank: u8, suit: &str, red: bool) -> (s: String)
    ensures
        s@ == decimal(rank as nat) + suit@ + if red { seq!['r'] } else { seq![] },
{
    let mut s = decimal_string(rank as u64);
    s.append(suit);
    if red {
        s.append("r");
        proof { reveal_strlit("r"); }
    }
    s
}

fn digit_of(c: char) -> (r: Option<u8>)
    ensures
        r == digit_value(c),
{
    if c == '0' {
        Some(0u8)
    } else if c == '1' {
        Some(1u8)
    } else if c == '2' {
        Some(2u8)
    } else if c == '3' {
        Some(3u8)
    } else if c == '4' {
        Some(4u8)
    } else if c == '5' {
        Some(5u8)
    } else if c == '6' {
        Some(6u8)
    } else if c == '7' {
        Some(7u8)
    } else if c == '8' {
        Some(8u8)
    } else if c == '9' {
        Some(9u8)
    } else {
        None
    }
}

fn wind_of(c: char) -> (r: Option<Wind>)
    ensures
        r == wind_from_char(c),
{
    if c == 'E' {
        Some(Wind::East)
    } else if c == 'S' {
        Some(Wind::South)
    } else if c == 'W' {
        Some(Wind::West)
    } else if c == 'N' {
        Some(Wind::North)
    } else {
        None
    }
}

fn parse_chars(s: &str) -> (r: Option<Tile>)
    ensures
        r == parse_label(s@),
{
    let n = s.unicode_len();
    let red = n > 0 && s.get_char(n - 1) == 'r';
    let base_len = if red { n - 1 } else { n };
    let ghost cs = s@;
    let ghost base = if red { cs.drop_last() } else { cs };
    assert(base.len() == base_len);
    assert(forall|i: int| 0 <= i < base_len ==> base[i] == cs[i]);
    if base_len == 1 {
        let c = s.get_char(0);
        if let Some(w) = wind_of(c) {
            return Some(Tile { kind: TileKind::Wind(w), red: false });
        }
    }
    if base_len == 2 {
        let c0 = s.get_char(0);
        let c1 = s.get_char(1);
        let dragon = if c1 != 'd' {
            None
        } else if c0 == 'w' {
            Some(Dragon::White)
        } else if c0 == 'g' {
            Some(Dragon::Green)
        } else if c0 == 'r' {
            Some(Dragon::Red)
        } else {
            None
        };
        assert(base =~= seq![c0, c1]);
        if let Some(d) = dragon {
            if red {
                return None;
            }
            return Some(Tile { kind: TileKind::Dragon(d), red: false });
        }
        let rank = match digit_of(c0) {
            Some(v) => v,
            None => {
                return None;
            },
        };
        if rank < 1 || rank > 9 {
            return None;
        }
        let suit = match Suit::from_char(c1) {
            Some(v) => v,
            None => {
                return None;
            },
        };
        if red && rank != 5 {
            return None;
        }
        if red {
            Some(Tile::red_five(suit))
        } else {
            Some(Tile::numbered(suit, rank))
        }
    } else {
        proof {
            if base_len != 1 {
                assert(dragon_from_label(base) is None);
            }
        }
        None
    }
}

impl std::str::FromStr for Tile {
    type Err = Error;

    fn from_str(s: &str) -> (r: Result<Tile, Error>)
        ensures
            parse_label(s@) matches Some(t) ==> r == Ok::<Tile, Error>(t),
            parse_label(s@) is None ==> (r matches Err(Error::InvalidTileString(x)) && x@ == s@),
            r matches Ok(t) ==> s@ == tile_label(t) || (t.kind is Wind && s@ == tile_label(t).push('r')),
    {
        Tile::parse(s)
    }
}

/// Reading back the notation of any tile that occurs in play yields the tile.
pub proof fn lemma_parse_label_round_trip(t: Tile)
    requires
        tile_wf(t),
    ensures
        parse_label(tile_label(t)) == Some(t),
{
    match t.kind {
        TileKind::Man(r) => lemma_numbered_round_trip(t, Suit::Man, r),
        TileKind::Pin(r) => lemma_numbered_round_trip(t, Suit::Pin, r),
        TileKind::Sou(r) => lemma_numbered_round_trip(t, Suit::Sou, r),
        TileKind::Wind(w) => {
            let cs = tile_label(t);
            assert(cs.last() != 'r');
        },
        TileKind::Dragon(d) => {
            let cs = tile_label(t);
            assert(cs.last() == 'd');
        },
    }
}

/// A text reads as a tile only when it is that tile's notation, or, for a wind, its
/// notation with a trailing `r` (which a wind ignores).
pub proof fn lemma_parse_label_unique(cs: Seq<char>, t: Tile)
    requires
        parse_label(cs) == Some(t),
    ensures
        tile_wf(t),
        cs == tile_label(t) || (t.kind is Wind && cs == tile_label(t).push('r')),
{
    let red = cs.len() > 0 && cs.last() == 'r';
    let base = if red { cs.drop_last() } else { cs };
    if red {
        assert(cs =~= base.push('r'));
    }
    if base.len() == 1 && wind_from_char(base[0]) is Some {
        assert(base =~= seq![base[0]]);
        assert(tile_label(t) =~= base);
    } else if dragon_from_label(base) is Some {
        assert(tile_label(t) =~= base);
    } else {
        let d = digit_value(base[0])->0;
        let sc = base[1];
        assert(decimal(d as nat) == seq![digit_char(d as int)]);
        assert(digit_char(d as int) == base[0]);
        assert(suit_char(suit_from_char(sc)->0) == sc);
        if red {
            assert(tile_label(t) =~= base.push('r'));
        } else {
            assert(tile_label(t) =~= base);
        }
    }
}

proof fn lemma_numbered_round_trip(t: Tile, suit: Suit, r: u8)
    requires
        tile_wf(t),
        tile_suit(t) == Some(suit),
        tile_rank(t) == Some(r),
    ensures
        parse_label(tile_label(t)) == Some(t),
{
    let cs = tile_label(t);
    let sc = suit_char(suit);
    assert(decimal(r as nat) == seq![digit_char(r as int)]);
    let base = seq![digit_char(r as int), sc];
    if t.red {
        assert(cs =~= base.push('r'));
        assert(cs.drop_last() =~= base);
    } else {
        assert(cs =~= base);
    }
    assert(digit_value(digit_char(r as int)) == Some(r));
    assert(suit_from_char(sc) == Some(suit));
    assert(wind_from_char(base[0]) is None);
    assert(dragon_from_label(base) is None);
}

/// Builds the standard 136-tile set (four of each tile; with aka dora one five per suit is red).
pub fn standard_set(aka_dora: bool) -> (tiles: Vec<Tile>)
    ensures
        tiles@ == standard_set_seq(aka_dora),
{
    let mut tiles: Vec<Tile> = Vec::new();
    let mut i: usize = 0;
    while i < 136
        invariant
            i <= 136,
            tiles@.len() == i,
            forall|j: int| 0 <= j < i ==> tiles@[j] == standard_tile_at(j, aka_dora),
        decreases 136 - i,
    {
        tiles.push(standard_tile_exec(i, aka_dora));
        i = i + 1;
    }
    assert(tiles@ =~= standard_set_seq(aka_dora));
    tiles
}

fn standard_tile_exec(i: usize, aka_dora: bool) -> (t: Tile)
    requires
        i < 136,
    ensures
        t == standard_tile_at(i as int, aka_dora),
{
    if i < 108 {
        let suit = if i < 36 {
            Suit::Man
        } else if i < 72 {
            Suit::Pin
        } else {
            Suit::Sou
        };
        let within = i % 36;
        let rank = (within / 4 + 1) as u8;
        let copy = within % 4;
        if aka_dora && rank == 5 && copy == 0 {
            Tile::red_five(suit)
        } else {
            Tile::numbered(suit, rank)
        }
    } else if i < 124 {
        let w = (i - 108) / 4;
        Tile::wind(Wind::from_index(w))
    } else {
        let d = (i - 124) / 4;
        Tile::dragon(
            if d == 0 {
                Dragon::White
            } else if d == 1 {
                Dragon::Green
            } else {
                Dragon::Red
            },
        )
    }
}

} // verus!
