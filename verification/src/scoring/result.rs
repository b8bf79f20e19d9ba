use vstd::prelude::*;

verus! {

/// How a hand was won.
#[derive(Debug, Clone, Copy, PartialEq, Eq, Structural)]
pub enum WinType {
    Tsumo,
    Ron { from: usize },
}

/// Scoring elements: yaku, yakuman, and the dora bonuses.
#[derive(Debug, Clone, Copy, PartialEq, Eq, Hash, Structural)]
pub enum Yaku {
    Riichi,
    DoubleRiichi,
    Ippatsu,
    MenzenTsumo,
    Tanyao,
    Pinfu,
    Yakuhai,
    Chiitoitsu,
    Toitoi,
    Iipeikou,
    Ryanpeikou,
    Sanshoku,
    Ittsu,
    Honitsu,
    Chinitsu,
    Chanta,
    Junchan,
    HaiteiHoutei,
    Rinshan,
    Chankan,
    Renhou,
    TenhouChiihou,
    Kokushi,
    Suuankou,
    Daisangen,
    Shousuushii,
    Daisuushii,
    Chuuren,
    Ryuuiisou,
    Suukantsu,
    Dora,
    UraDora,
    AkaDora,
}

/// Closed-hand han before the open −1 penalty on eligible yaku.
pub open spec fn closed_han_spec(y: Yaku) -> u8 {
    match y {
        Yaku::Riichi | Yaku::Ippatsu | Yaku::MenzenTsumo | Yaku::Tanyao | Yaku::Pinfu
        | Yaku::Yakuhai | Yaku::Iipeikou => 1,
        Yaku::DoubleRiichi => 2,
        Yaku::Chiitoitsu | Yaku::Toitoi | Yaku::Sanshoku | Yaku::Ittsu | Yaku::Chanta => 2,
        Yaku::Honitsu | Yaku::Junchan | Yaku::Ryanpeikou => 3,
        Yaku::Chinitsu => 6,
        Yaku::HaiteiHoutei | Yaku::Rinshan | Yaku::Chankan => 1,
        Yaku::Renhou => 5,
        Yaku::TenhouChiihou => 13,
        Yaku::Kokushi | Yaku::Suuankou | Yaku::Daisangen | Yaku::Shousuushii | Yaku::Chuuren
        | Yaku::Ryuuiisou | Yaku::Suukantsu => 13,
        Yaku::Daisuushii => 26,
        Yaku::Dora | Yaku::UraDora | Yaku::AkaDora => 0,
    }
}

/// Limit hands (yakuman band).
pub open spec fn is_yakuman_spec(y: Yaku) -> bool {
    match y {
        Yaku::TenhouChiihou | Yaku::Kokushi | Yaku::Suuankou | Yaku::Daisangen | Yaku::Shousuushii
        | Yaku::Daisuushii | Yaku::Chuuren | Yaku::Ryuuiisou | Yaku::Suukantsu => true,
        _ => false,
    }
}

/// Yaku worth one han less when the hand is open.
pub open spec fn open_penalty_spec(y: Yaku) -> bool {
    match y {
        Yaku::Sanshoku | Yaku::Ittsu | Yaku::Honitsu | Yaku::Chinitsu | Yaku::Chanta | Yaku::Junchan => true,
        _ => false,
    }
}

/// Display name of a yaku.
pub open spec fn yaku_label(y: Yaku) -> Seq<char> {
    match y {
        Yaku::Riichi => seq!['R', 'i', 'i', 'c', 'h', 'i'],
        Yaku::DoubleRiichi => seq!['D', 'o', 'u', 'b', 'l', 'e', ' ', 'r', 'i', 'i', 'c', 'h', 'i'],
        Yaku::Ippatsu => seq!['I', 'p', 'p', 'a', 't', 's', 'u'],
        Yaku::MenzenTsumo => seq!['M', 'e', 'n', 'z', 'e', 'n', ' ', 't', 's', 'u', 'm', 'o'],
        Yaku::Tanyao => seq!['T', 'a', 'n', 'y', 'a', 'o'],
        Yaku::Pinfu => seq!['P', 'i', 'n', 'f', 'u'],
        Yaku::Yakuhai => seq!['Y', 'a', 'k', 'u', 'h', 'a', 'i'],
        Yaku::Chiitoitsu => seq!['C', 'h', 'i', 'i', 't', 'o', 'i', 't', 's', 'u'],
        Yaku::Toitoi => seq!['T', 'o', 'i', 't', 'o', 'i'],
        Yaku::Iipeikou => seq!['I', 'i', 'p', 'e', 'i', 'k', 'o', 'u'],
        Yaku::Ryanpeikou => seq!['R', 'y', 'a', 'n', 'p', 'e', 'i', 'k', 'o', 'u'],
        Yaku::Sanshoku => seq!['S', 'a', 'n', 's', 'h', 'o', 'k', 'u', ' ', 'd', 'o', 'u', 'j', 'u', 'n'],
        Yaku::Ittsu => seq!['I', 't', 't', 's', 'u'],
        Yaku::Honitsu => seq!['H', 'o', 'n', 'i', 't', 's', 'u'],
        Yaku::Chinitsu => seq!['C', 'h', 'i', 'n', 'i', 't', 's', 'u'],
        Yaku::Chanta => seq!['C', 'h', 'a', 'n', 't', 'a'],
        Yaku::Junchan => seq!['J', 'u', 'n', 'c', 'h', 'a', 'n'],
        Yaku::HaiteiHoutei => seq!['H', 'a', 'i', 't', 'e', 'i', ' ', '/', ' ', 'H', 'o', 'u', 't', 'e', 'i'],
        Yaku::Rinshan => seq!['R', 'i', 'n', 's', 'h', 'a', 'n', ' ', 'k', 'a', 'i', 'h', 'o', 'u'],
        Yaku::Chankan => seq!['C', 'h', 'a', 'n', 'k', 'a', 'n'],
        Yaku::Renhou => seq!['R', 'e', 'n', 'h', 'o', 'u'],
        Yaku::TenhouChiihou => seq!['T', 'e', 'n', 'h', 'o', 'u', ' ', '/', ' ', 'C', 'h', 'i', 'i', 'h', 'o', 'u'],
        Yaku::Kokushi => seq!['K', 'o', 'k', 'u', 's', 'h', 'i', ' ', 'm', 'u', 's', 'o', 'u'],
        Yaku::Suuankou => seq!['S', 'u', 'u', 'a', 'n', 'k', 'o', 'u'],
        Yaku::Daisangen => seq!['D', 'a', 'i', 's', 'a', 'n', 'g', 'e', 'n'],
        Yaku::Shousuushii => seq!['S', 'h', 'o', 'u', 's', 'u', 'u', 's', 'h', 'i', 'i'],
        Yaku::Daisuushii => seq!['D', 'a', 'i', 's', 'u', 'u', 's', 'h', 'i', 'i'],
        Yaku::Chuuren => seq!['C', 'h', 'u', 'u', 'r', 'e', 'n', ' ', 'p', 'o', 'u', 't', 'o', 'u'],
        Yaku::Ryuuiisou => seq!['R', 'y', 'u', 'u', 'i', 'i', 's', 'o', 'u'],
        Yaku::Suukantsu => seq!['S', 'u', 'u', 'k', 'a', 'n', 't', 's', 'u'],
        Yaku::Dora => seq!['D', 'o', 'r', 'a'],
        Yaku::UraDora => seq!['U', 'r', 'a', '-', 'd', 'o', 'r', 'a'],
        Yaku::AkaDora => seq!['A', 'k', 'a', '-', 'd', 'o', 'r', 'a'],
    }
}

impl Yaku {
    pub fn closed_han(self) -> (h: u8)
        ensures
            h == closed_han_spec(self),
    {
        match self {
            Yaku::Riichi | Yaku::Ippatsu | Yaku::MenzenTsumo | Yaku::Tanyao | Yaku::Pinfu
            | Yaku::Yakuhai | Yaku::Iipeikou => 1,
            Yaku::DoubleRiichi => 2,
            Yaku::Chiitoitsu | Yaku::Toitoi | Yaku::Sanshoku | Yaku::Ittsu | Yaku::Chanta => 2,
            Yaku::Honitsu | Yaku::Junchan | Yaku::Ryanpeikou => 3,
            Yaku::Chinitsu => 6,
            Yaku::HaiteiHoutei | Yaku::Rinshan | Yaku::Chankan => 1,
            Yaku::Renhou => 5,
            Yaku::TenhouChiihou => 13,
            Yaku::Kokushi | Yaku::Suuankou | Yaku::Daisangen | Yaku::Shousuushii | Yaku::Chuuren
            | Yaku::Ryuuiisou | Yaku::Suukantsu => 13,
            Yaku::Daisuushii => 26,
            Yaku::Dora | Yaku::UraDora | Yaku::AkaDora => 0,
        }
    }

    /// Whether this yaku is a limit hand (yakuman band).
    pub fn is_yakuman(self) -> (b: bool)
        ensures
            b == is_yakuman_spec(self),
    {
        match self {
            Yaku::TenhouChiihou | Yaku::Kokushi | Yaku::Suuankou | Yaku::Daisangen
            | Yaku::Shousuushii | Yaku::Daisuushii | Yaku::Chuuren | Yaku::Ryuuiisou
            | Yaku::Suukantsu => true,
            _ => false,
        }
    }

    pub fn han(self) -> (h: u8)
        ensures
            h == closed_han_spec(self),
    {
        self.closed_han()
    }

    pub fn open_han_penalty(self) -> (b: bool)
        ensures
            b == open_penalty_spec(self),
    {
        match self {
            Yaku::Sanshoku | Yaku::Ittsu | Yaku::Honitsu | Yaku::Chinitsu | Yaku::Chanta
            | Yaku::Junchan => true,
            _ => false,
        }
    }

    pub fn label(self) -> (s: &'static str)
        ensures
            s@ == yaku_label(self),
    {
        match self {
            Yaku::Riichi => {
                proof { reveal_strlit("Riichi"); }
                "Riichi"
            },
            Yaku::DoubleRiichi => {
                proof { reveal_strlit("Double riichi"); }
                "Double riichi"
            },
            Yaku::Ippatsu => {
                proof { reveal_strlit("Ippatsu"); }
                "Ippatsu"
            },
            Yaku::MenzenTsumo => {
                proof { reveal_strlit("Menzen tsumo"); }
                "Menzen tsumo"
            },
            Yaku::Tanyao => {
                proof { reveal_strlit("Tanyao"); }
                "Tanyao"
            },
            Yaku::Pinfu => {
                proof { reveal_strlit("Pinfu"); }
                "Pinfu"
            },
            Yaku::Yakuhai => {
                proof { reveal_strlit("Yakuhai"); }
                "Yakuhai"
            },
            Yaku::Chiitoitsu => {
                proof { reveal_strlit("Chiitoitsu"); }
                "Chiitoitsu"
            },
            Yaku::Toitoi => {
                proof { reveal_strlit("Toitoi"); }
                "Toitoi"
            },
            Yaku::Iipeikou => {
                proof { reveal_strlit("Iipeikou"); }
                "Iipeikou"
            },
            Yaku::Ryanpeikou => {
                proof { reveal_strlit("Ryanpeikou"); }
                "Ryanpeikou"
            },
            Yaku::Sanshoku => {
                proof { reveal_strlit("Sanshoku doujun"); }
                "Sanshoku doujun"
            },
            Yaku::Ittsu => {
                proof { reveal_strlit("Ittsu"); }
                "Ittsu"
            },
            Yaku::Honitsu => {
                proof { reveal_strlit("Honitsu"); }
                "Honitsu"
            },
            Yaku::Chinitsu => {
                proof { reveal_strlit("Chinitsu"); }
                "Chinitsu"
            },
            Yaku::Chanta => {
                proof { reveal_strlit("Chanta"); }
                "Chanta"
            },
            Yaku::Junchan => {
                proof { reveal_strlit("Junchan"); }
                "Junchan"
            },
            Yaku::HaiteiHoutei => {
                proof { reveal_strlit("Haitei / Houtei"); }
                "Haitei / Houtei"
            },
            Yaku::Rinshan => {
                proof { reveal_strlit("Rinshan kaihou"); }
                "Rinshan kaihou"
            },
            Yaku::Chankan => {
                proof { reveal_strlit("Chankan"); }
                "Chankan"
            },
            Yaku::Renhou => {
                proof { reveal_strlit("Renhou"); }
                "Renhou"
            },
            Yaku::TenhouChiihou => {
                proof { reveal_strlit("Tenhou / Chiihou"); }
                "Tenhou / Chiihou"
            },
            Yaku::Kokushi => {
                proof { reveal_strlit("Kokushi musou"); }
                "Kokushi musou"
            },
            Yaku::Suuankou => {
                proof { reveal_strlit("Suuankou"); }
                "Suuankou"
            },
            Yaku::Daisangen => {
                proof { reveal_strlit("Daisangen"); }
                "Daisangen"
            },
            Yaku::Shousuushii => {
                proof { reveal_strlit("Shousuushii"); }
                "Shousuushii"
            },
            Yaku::Daisuushii => {
                proof { reveal_strlit("Daisuushii"); }
                "Daisuushii"
            },
            Yaku::Chuuren => {
                proof { reveal_strlit("Chuuren poutou"); }
                "Chuuren poutou"
            },
            Yaku::Ryuuiisou => {
                proof { reveal_strlit("Ryuuiisou"); }
                "Ryuuiisou"
            },
            Yaku::Suukantsu => {
                proof { reveal_strlit("Suukantsu"); }
                "Suukantsu"
            },
            Yaku::Dora => {
                proof { reveal_strlit("Dora"); }
                "Dora"
            },
            Yaku::UraDora => {
                proof { reveal_strlit("Ura-dora"); }
                "Ura-dora"
            },
            Yaku::AkaDora => {
                proof { reveal_strlit("Aka-dora"); }
                "Aka-dora"
            },
        }
    }
}

/// One transfer of points between seats.
#[derive(Debug, Clone, Copy, PartialEq, Eq, Structural)]
pub struct Payment {
    pub payer: usize,
    pub payee: usize,
    pub points: i32,
}

/// A seat's change in score.
#[derive(Debug, Clone, Copy, PartialEq, Eq, Structural)]
pub struct ScoreDelta {
    pub seat: usize,
    pub delta: i32,
}

/// The scored outcome of one win.
#[derive(Debug, Clone, PartialEq, Eq)]
pub struct ScoringResult {
    pub winner: usize,
    pub win_type: WinType,
    pub yaku: Vec<Yaku>,
    pub dora: u8,
    pub ura_dora: u8,
    pub aka_dora: u8,
    pub han: u8,
    pub fu: u8,
    pub payments: Vec<Payment>,
    pub deltas: [i32; 4],
}

} // verus!
