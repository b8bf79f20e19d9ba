use vstd::prelude::*;

verus! {

/// Limit band for basic points before ron/tsumo multipliers.
#[derive(Debug, Clone, Copy, PartialEq, Eq, Structural)]
pub enum LimitBand {
    Normal,
    Mangan,
    Haneman,
    Baiman,
    Sanbaiman,
    Yakuman,
}

pub open spec fn limit_band_spec(han: u8, fu: u8) -> LimitBand {
    if han >= 13 {
        LimitBand::Yakuman
    } else if han >= 11 {
        LimitBand::Sanbaiman
    } else if han >= 8 {
        LimitBand::Baiman
    } else if han >= 6 {
        LimitBand::Haneman
    } else if han >= 5 || (han == 4 && fu >= 40) || (han == 3 && fu >= 70) {
        LimitBand::Mangan
    } else {
        LimitBand::Normal
    }
}

pub open spec fn pow2(n: nat) -> nat
    decreases n,
{
    if n == 0 {
        1
    } else {
        2 * pow2((n - 1) as nat)
    }
}

/// Basic points: `fu × 2^(han+2)` below mangan, fixed values at and above it.
pub open spec fn base_points_spec(han: u8, fu: u8) -> int {
    match limit_band_spec(han, fu) {
        LimitBand::Normal => fu as int * pow2((han + 2) as nat) as int,
        LimitBand::Mangan => 2_000,
        LimitBand::Haneman => 3_000,
        LimitBand::Baiman => 4_000,
        LimitBand::Sanbaiman => 6_000,
        LimitBand::Yakuman => 8_000,
    }
}

pub open spec fn limit_label_spec(han: u8, fu: u8) -> Seq<char> {
    match limit_band_spec(han, fu) {
        LimitBand::Normal => seq!['N', 'o', 'r', 'm', 'a', 'l'],
        LimitBand::Mangan => seq!['M', 'a', 'n', 'g', 'a', 'n'],
        LimitBand::Haneman => seq!['H', 'a', 'n', 'e', 'm', 'a', 'n'],
        LimitBand::Baiman => seq!['B', 'a', 'i', 'm', 'a', 'n'],
        LimitBand::Sanbaiman => seq!['S', 'a', 'n', 'b', 'a', 'i', 'm', 'a', 'n'],
        LimitBand::Yakuman => seq!['Y', 'a', 'k', 'u', 'm', 'a', 'n'],
    }
}

pub fn limit_band(han: u8, fu: u8) -> (b: LimitBand)
    ensures
        b == limit_band_spec(han, fu),
{
    if han >= 13 {
        LimitBand::Yakuman
    } else if han >= 11 {
        LimitBand::Sanbaiman
    } else if han >= 8 {
        LimitBand::Baiman
    } else if han >= 6 {
        LimitBand::Haneman
    } else if han >= 5 || (han == 4 && fu >= 40) || (han == 3 && fu >= 70) {
        LimitBand::Mangan
    } else {
        LimitBand::Normal
    }
}

pub fn limit_band_label(han: u8, fu: u8) -> (s: &'static str)
    ensures
        s@ == limit_label_spec(han, fu),
{
    match limit_band(han, fu) {
        LimitBand::Normal => {
            proof { reveal_strlit("Normal"); }
            "Normal"
        },
        LimitBand::Mangan => {
            proof { reveal_strlit("Mangan"); }
            "Mangan"
        },
        LimitBand::Haneman => {
            proof { reveal_strlit("Haneman"); }
            "Haneman"
        },
        LimitBand::Baiman => {
            proof { reveal_strlit("Baiman"); }
            "Baiman"
        },
        LimitBand::Sanbaiman => {
            proof { reveal_strlit("Sanbaiman"); }
            "Sanbaiman"
        },
        LimitBand::Yakuman => {
            proof { reveal_strlit("Yakuman"); }
            "Yakuman"
        },
    }
}

/// Basic points after mangan thresholds (before payment multipliers).
pub fn base_points(han: u8, fu: u8) -> (p: i32)
    ensures
        p == base_points_spec(han, fu),
        0 <= p <= 16_320,
{
    match limit_band(han, fu) {
        LimitBand::Normal => {
            assert(han <= 4);
            reveal_with_fuel(pow2, 7);
            let factor: i32 = if han == 0 {
                4
            } else if han == 1 {
                8
            } else if han == 2 {
                16
            } else if han == 3 {
                32
            } else {
                64
            };
            fu as i32 * factor
        },
        LimitBand::Mangan => 2_000,
        LimitBand::Haneman => 3_000,
        LimitBand::Baiman => 4_000,
        LimitBand::Sanbaiman => 6_000,
        LimitBand::Yakuman => 8_000,
    }
}

} // verus!
