use vstd::prelude::*;

verus! {

/// The three numbered suits.
#[derive(Debug, Clone, Copy, PartialEq, Eq, Hash, PartialOrd, Ord, Structural)]
pub enum Suit {
    Man,
    Pin,
    Sou,
}

impl Suit {
    /// Letter used in tile notation (`m`, `p`, `s`).
    pub fn as_char(self) -> (c: char)
        ensures
            c == suit_char(self),
    {
        match self {
            Suit::Man => 'm',
            Suit::Pin => 'p',
            Suit::Sou => 's',
        }
    }

    /// Inverse of [`Suit::as_char`].
    pub fn from_char(ch: char) -> (r: Option<Suit>)
        ensures
            r == suit_from_char(ch),
    {
        if ch == 'm' {
            Some(Suit::Man)
        } else if ch == 'p' {
            Some(Suit::Pin)
        } else if ch == 's' {
            Some(Suit::Sou)
        } else {
            None
        }
    }

    /// Position of the suit in display order (man, pin, sou).
    pub fn index(self) -> (i: usize)
        ensures
            i == suit_index(self),
    {
        match self {
            Suit::Man => 0,
            Suit::Pin => 1,
            Suit::Sou => 2,
        }
    }
}

pub open spec fn suit_char(s: Suit) -> char {
    match s {
        Suit::Man => 'm',
        Suit::Pin => 'p',
        Suit::Sou => 's',
    }
}

pub open spec fn suit_from_char(ch: char) -> Option<Suit> {
    if ch == 'm' {
        Some(Suit::Man)
    } else if ch == 'p' {
        Some(Suit::Pin)
    } else if ch == 's' {
        Some(Suit::Sou)
    } else {
        None
    }
}

pub open spec fn suit_index(s: Suit) -> nat {
    match s {
        Suit::Man => 0,
        Suit::Pin => 1,
        Suit::Sou => 2,
    }
}

/// The four winds, in seating order.
#[derive(Debug, Clone, Copy, PartialEq, Eq, Hash, PartialOrd, Ord, Structural)]
pub enum Wind {
    East,
    South,
    West,
    North,
}

impl Wind {
    /// Notation letter (`E`, `S`, `W`, `N`).
    pub fn as_str(self) -> (s: &'static str)
        ensures
            s@ == wind_label(self),
    {
        match self {
            Wind::East => {
                proof { reveal_strlit("E"); }
                "E"
            },
            Wind::South => {
                proof { reveal_strlit("S"); }
                "S"
            },
            Wind::West => {
                proof { reveal_strlit("W"); }
                "W"
            },
            Wind::North => {
                proof { reveal_strlit("N"); }
                "N"
            },
        }
    }

    /// Wind at position `i` of seating order East, South, West, North.
    pub fn from_index(i: usize) -> (w: Wind)
        requires
            i < 4,
        ensures
            wind_index(w) == i,
    {
        if i == 0 {
            Wind::East
        } else if i == 1 {
            Wind::South
        } else if i == 2 {
            Wind::West
        } else {
            Wind::North
        }
    }
}

pub open spec fn wind_label(w: Wind) -> Seq<char> {
    match w {
        Wind::East => seq!['E'],
        Wind::South => seq!['S'],
        Wind::West => seq!['W'],
        Wind::North => seq!['N'],
    }
}

pub open spec fn wind_index(w: Wind) -> nat {
    match w {
        Wind::East => 0,
        Wind::South => 1,
        Wind::West => 2,
        Wind::North => 3,
    }
}

/// The three dragons.
#[derive(Debug, Clone, Copy, PartialEq, Eq, Hash, PartialOrd, Ord, Structural)]
pub enum Dragon {
    White,
    Green,
    Red,
}

impl Dragon {
    /// Two-letter notation (`wd`, `gd`, `rd`).
    pub fn as_str(self) -> (s: &'static str)
        ensures
            s@ == dragon_label(self),
    {
        match self {
            Dragon::White => {
                proof { reveal_strlit("wd"); }
                "wd"
            },
            Dragon::Green => {
                proof { reveal_strlit("gd"); }
                "gd"
            },
            Dragon::Red => {
                proof { reveal_strlit("rd"); }
                "rd"
            },
        }
    }

    /// Inverse of [`Dragon::as_str`].
    pub fn from_label(label: &str) -> (r: Option<Dragon>)
        ensures
            r == dragon_from_label(label@),
    {
        let n = label.unicode_len();
        if n != 2 {
            return None;
        }
        let first = label.get_char(0);
        let second = label.get_char(1);
        assert(label@ =~= seq![first, second]);
        if second != 'd' {
            return None;
        }
        if first == 'w' {
            Some(Dragon::White)
        } else if first == 'g' {
            Some(Dragon::Green)
        } else if first == 'r' {
            Some(Dragon::Red)
        } else {
            None
        }
    }
}

pub open spec fn dragon_label(d: Dragon) -> Seq<char> {
    match d {
        Dragon::White => seq!['w', 'd'],
        Dragon::Green => seq!['g', 'd'],
        Dragon::Red => seq!['r', 'd'],
    }
}

pub open spec fn dragon_from_label(cs: Seq<char>) -> Option<Dragon> {
    if cs == seq!['w', 'd'] {
        Some(Dragon::White)
    } else if cs == seq!['g', 'd'] {
        Some(Dragon::Green)
    } else if cs == seq!['r', 'd'] {
        Some(Dragon::Red)
    } else {
        None
    }
}

pub open spec fn dragon_index(d: Dragon) -> nat {
    match d {
        Dragon::White => 0,
        Dragon::Green => 1,
        Dragon::Red => 2,
    }
}

/// What a tile shows, ignoring the aka (red) marking.
#[derive(Debug, Clone, Copy, PartialEq, Eq, Hash, PartialOrd, Ord, Structural)]
pub enum TileKind {
    Man(u8),
    Pin(u8),
    Sou(u8),
    Wind(Wind),
    Dragon(Dragon),
}

pub open spec fn kind_suit(k: TileKind) -> Option<Suit> {
    match k {
        TileKind::Man(_) => Some(Suit::Man),
        TileKind::Pin(_) => Some(Suit::Pin),
        TileKind::Sou(_) => Some(Suit::Sou),
        _ => None,
    }
}

pub open spec fn kind_rank(k: TileKind) -> Option<u8> {
    match k {
        TileKind::Man(r) => Some(r),
        TileKind::Pin(r) => Some(r),
        TileKind::Sou(r) => Some(r),
        _ => None,
    }
}

/// Display category: man, pin, sou, winds, dragons.
pub open spec fn kind_category(k: TileKind) -> nat {
    match k {
        TileKind::Man(_) => 0,
        TileKind::Pin(_) => 1,
        TileKind::Sou(_) => 2,
        TileKind::Wind(_) => 3,
        TileKind::Dragon(_) => 4,
    }
}

/// Position within the category: the rank, or the wind / dragon index.
pub open spec fn kind_sub_key(k: TileKind) -> nat {
    match k {
        TileKind::Man(r) => r as nat,
        TileKind::Pin(r) => r as nat,
        TileKind::Sou(r) => r as nat,
        TileKind::Wind(w) => wind_index(w),
        TileKind::Dragon(d) => dragon_index(d),
    }
}

/// Sort key of a kind: category first, then position within it.
pub open spec fn kind_key(k: TileKind) -> nat {
    kind_category(k) * 256 + kind_sub_key(k)
}

impl TileKind {
    pub fn suit(self) -> (r: Option<Suit>)
        ensures
            r == kind_suit(self),
    {
        match self {
            TileKind::Man(_) => Some(Suit::Man),
            TileKind::Pin(_) => Some(Suit::Pin),
            TileKind::Sou(_) => Some(Suit::Sou),
            _ => None,
        }
    }

    pub fn rank(self) -> (r: Option<u8>)
        ensures
            r == kind_rank(self),
    {
        match self {
            TileKind::Man(r) => Some(r),
            TileKind::Pin(r) => Some(r),
            TileKind::Sou(r) => Some(r),
            _ => None,
        }
    }

    /// Sort key: man < pin < sou < winds < dragons, then by rank or seat order.
    pub fn key(self) -> (k: u32)
        ensures
            k == kind_key(self),
    {
        match self {
            TileKind::Man(r) => r as u32,
            TileKind::Pin(r) => 256 + r as u32,
            TileKind::Sou(r) => 512 + r as u32,
            TileKind::Wind(w) => 768 + match w {
                Wind::East => 0u32,
                Wind::South => 1u32,
                Wind::West => 2u32,
                Wind::North => 3u32,
            },
            TileKind::Dragon(d) => 1024 + match d {
                Dragon::White => 0u32,
                Dragon::Green => 1u32,
                Dragon::Red => 2u32,
            },
        }
    }
}

/// Distinct kinds have distinct sort keys.
pub proof fn lemma_kind_key_injective(a: TileKind, b: TileKind)
    ensures
        kind_key(a) == kind_key(b) ==> a == b,
{
}

} // verus!
