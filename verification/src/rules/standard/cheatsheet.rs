//! The standard-profile yaku catalog: which winning-hand types the engine scores.

use vstd::prelude::*;
use vstd::string::*;

verus! {

/// One row in the standard yaku catalog.
#[derive(Debug, Clone, Copy)]
pub struct CheatsheetRow {
    pub id: &'static str,
    pub label: &'static str,
    pub implemented: bool,
}

/// The number of rows in the catalog.
pub const CATALOG_LEN: usize = 30;

/// The id of catalog row `i`.
pub open spec fn row_id(i: int) -> Seq<char> {
    if i == 0 {
        seq!['r', 'i', 'i', 'c', 'h', 'i']
    } else if i == 1 {
        seq!['d', 'o', 'u', 'b', 'l', 'e', '_', 'r', 'i', 'i', 'c', 'h', 'i']
    } else if i == 2 {
        seq!['i', 'p', 'p', 'a', 't', 's', 'u']
    } else if i == 3 {
        seq!['m', 'e', 'n', 'z', 'e', 'n', '_', 't', 's', 'u', 'm', 'o']
    } else if i == 4 {
        seq!['p', 'i', 'n', 'f', 'u']
    } else if i == 5 {
        seq!['i', 'i', 'p', 'e', 'i', 'k', 'o', 'u']
    } else if i == 6 {
        seq!['r', 'y', 'a', 'n', 'p', 'e', 'i', 'k', 'o', 'u']
    } else if i == 7 {
        seq!['c', 'h', 'i', 'i', 't', 'o', 'i', 't', 's', 'u']
    } else if i == 8 {
        seq!['h', 'a', 'i', 't', 'e', 'i']
    } else if i == 9 {
        seq!['r', 'i', 'n', 's', 'h', 'a', 'n']
    } else if i == 10 {
        seq!['c', 'h', 'a', 'n', 'k', 'a', 'n']
    } else if i == 11 {
        seq!['r', 'e', 'n', 'h', 'o', 'u']
    } else if i == 12 {
        seq!['t', 'e', 'n', 'h', 'o', 'u']
    } else if i == 13 {
        seq!['y', 'a', 'k', 'u', 'h', 'a', 'i']
    } else if i == 14 {
        seq!['t', 'a', 'n', 'y', 'a', 'o']
    } else if i == 15 {
        seq!['s', 'a', 'n', 's', 'h', 'o', 'k', 'u']
    } else if i == 16 {
        seq!['i', 't', 't', 's', 'u']
    } else if i == 17 {
        seq!['c', 'h', 'a', 'n', 't', 'a']
    } else if i == 18 {
        seq!['j', 'u', 'n', 'c', 'h', 'a', 'n']
    } else if i == 19 {
        seq!['t', 'o', 'i', 't', 'o', 'i']
    } else if i == 20 {
        seq!['h', 'o', 'n', 'i', 't', 's', 'u']
    } else if i == 21 {
        seq!['c', 'h', 'i', 'n', 'i', 't', 's', 'u']
    } else if i == 22 {
        seq!['k', 'o', 'k', 'u', 's', 'h', 'i']
    } else if i == 23 {
        seq!['s', 'u', 'u', 'a', 'n', 'k', 'o', 'u']
    } else if i == 24 {
        seq!['d', 'a', 'i', 's', 'a', 'n', 'g', 'e', 'n']
    } else if i == 25 {
        seq!['s', 'h', 'o', 'u', 's', 'u', 'u', 's', 'h', 'i', 'i']
    } else if i == 26 {
        seq!['d', 'a', 'i', 's', 'u', 'u', 's', 'h', 'i', 'i']
    } else if i == 27 {
        seq!['c', 'h', 'u', 'u', 'r', 'e', 'n']
    } else if i == 28 {
        seq!['r', 'y', 'u', 'u', 'i', 'i', 's', 'o', 'u']
    } else {
        seq!['s', 'u', 'u', 'k', 'a', 'n', 't', 's', 'u']
    }
}

/// The label of catalog row `i`.
pub open spec fn row_label(i: int) -> Seq<char> {
    if i == 0 {
        seq!['R', 'i', 'i', 'c', 'h', 'i']
    } else if i == 1 {
        seq!['D', 'o', 'u', 'b', 'l', 'e', ' ', 'r', 'i', 'i', 'c', 'h', 'i']
    } else if i == 2 {
        seq!['I', 'p', 'p', 'a', 't', 's', 'u']
    } else if i == 3 {
        seq!['M', 'e', 'n', 'z', 'e', 'n', ' ', 't', 's', 'u', 'm', 'o']
    } else if i == 4 {
        seq!['P', 'i', 'n', 'f', 'u']
    } else if i == 5 {
        seq!['I', 'i', 'p', 'e', 'i', 'k', 'o', 'u']
    } else if i == 6 {
        seq!['R', 'y', 'a', 'n', 'p', 'e', 'i', 'k', 'o', 'u']
    } else if i == 7 {
        seq!['C', 'h', 'i', 'i', 't', 'o', 'i', 't', 's', 'u']
    } else if i == 8 {
        seq!['H', 'a', 'i', 't', 'e', 'i', ' ', '/', ' ', 'H', 'o', 'u', 't', 'e', 'i']
    } else if i == 9 {
        seq!['R', 'i', 'n', 's', 'h', 'a', 'n', ' ', 'k', 'a', 'i', 'h', 'o', 'u']
    } else if i == 10 {
        seq!['C', 'h', 'a', 'n', 'k', 'a', 'n']
    } else if i == 11 {
        seq!['R', 'e', 'n', 'h', 'o', 'u']
    } else if i == 12 {
        seq!['T', 'e', 'n', 'h', 'o', 'u', ' ', '/', ' ', 'C', 'h', 'i', 'i', 'h', 'o', 'u']
    } else if i == 13 {
        seq!['Y', 'a', 'k', 'u', 'h', 'a', 'i']
    } else if i == 14 {
        seq!['T', 'a', 'n', 'y', 'a', 'o']
    } else if i == 15 {
        seq!['S', 'a', 'n', 's', 'h', 'o', 'k', 'u', ' ', 'd', 'o', 'u', 'j', 'u', 'n']
    } else if i == 16 {
        seq!['I', 't', 't', 's', 'u']
    } else if i == 17 {
        seq!['C', 'h', 'a', 'n', 't', 'a']
    } else if i == 18 {
        seq!['J', 'u', 'n', 'c', 'h', 'a', 'n']
    } else if i == 19 {
        seq!['T', 'o', 'i', 't', 'o', 'i']
    } else if i == 20 {
        seq!['H', 'o', 'n', 'i', 't', 's', 'u']
    } else if i == 21 {
        seq!['C', 'h', 'i', 'n', 'i', 't', 's', 'u']
    } else if i == 22 {
        seq!['K', 'o', 'k', 'u', 's', 'h', 'i', ' ', 'm', 'u', 's', 'o', 'u']
    } else if i == 23 {
        seq!['S', 'u', 'u', 'a', 'n', 'k', 'o', 'u']
    } else if i == 24 {
        seq!['D', 'a', 'i', 's', 'a', 'n', 'g', 'e', 'n']
    } else if i == 25 {
        seq!['S', 'h', 'o', 'u', 's', 'u', 'u', 's', 'h', 'i', 'i']
    } else if i == 26 {
        seq!['D', 'a', 'i', 's', 'u', 'u', 's', 'h', 'i', 'i']
    } else if i == 27 {
        seq!['C', 'h', 'u', 'u', 'r', 'e', 'n', ' ', 'p', 'o', 'u', 't', 'o', 'u']
    } else if i == 28 {
        seq!['R', 'y', 'u', 'u', 'i', 'i', 's', 'o', 'u']
    } else {
        seq!['S', 'u', 'u', 'k', 'a', 'n', 't', 's', 'u']
    }
}

fn row(id: &'static str, label: &'static str, implemented: bool) -> (r: CheatsheetRow)
    ensures
        r.id == id,
        r.label == label,
        r.implemented == implemented,
{
    CheatsheetRow { id, label, implemented }
}

/// Every distinct winning-hand / yaku category for standard Japanese riichi, in catalog
/// order; all of them are scored.
pub fn rows() -> (v: Vec<CheatsheetRow>)
    ensures
        v@.len() == CATALOG_LEN,
        forall|i: int| 0 <= i < v@.len() ==> (#[trigger] v@[i]).id@ == row_id(i) && v@[i].label@ == row_label(i)
            && v@[i].implemented,
{
    let mut v: Vec<CheatsheetRow> = Vec::new();
    proof { reveal_strlit("riichi"); reveal_strlit("Riichi"); }
    v.push(row("riichi", "Riichi", true));
    proof { reveal_strlit("double_riichi"); reveal_strlit("Double riichi"); }
    v.push(row("double_riichi", "Double riichi", true));
    proof { reveal_strlit("ippatsu"); reveal_strlit("Ippatsu"); }
    v.push(row("ippatsu", "Ippatsu", true));
    proof { reveal_strlit("menzen_tsumo"); reveal_strlit("Menzen tsumo"); }
    v.push(row("menzen_tsumo", "Menzen tsumo", true));
    proof { reveal_strlit("pinfu"); reveal_strlit("Pinfu"); }
    v.push(row("pinfu", "Pinfu", true));
    proof { reveal_strlit("iipeikou"); reveal_strlit("Iipeikou"); }
    v.push(row("iipeikou", "Iipeikou", true));
    proof { reveal_strlit("ryanpeikou"); reveal_strlit("Ryanpeikou"); }
    v.push(row("ryanpeikou", "Ryanpeikou", true));
    proof { reveal_strlit("chiitoitsu"); reveal_strlit("Chiitoitsu"); }
    v.push(row("chiitoitsu", "Chiitoitsu", true));
    proof { reveal_strlit("haitei"); reveal_strlit("Haitei / Houtei"); }
    v.push(row("haitei", "Haitei / Houtei", true));
    proof { reveal_strlit("rinshan"); reveal_strlit("Rinshan kaihou"); }
    v.push(row("rinshan", "Rinshan kaihou", true));
    proof { reveal_strlit("chankan"); reveal_strlit("Chankan"); }
    v.push(row("chankan", "Chankan", true));
    proof { reveal_strlit("renhou"); reveal_strlit("Renhou"); }
    v.push(row("renhou", "Renhou", true));
    proof { reveal_strlit("tenhou"); reveal_strlit("Tenhou / Chiihou"); }
    v.push(row("tenhou", "Tenhou / Chiihou", true));
    proof { reveal_strlit("yakuhai"); reveal_strlit("Yakuhai"); }
    v.push(row("yakuhai", "Yakuhai", true));
    proof { reveal_strlit("tanyao"); reveal_strlit("Tanyao"); }
    v.push(row("tanyao", "Tanyao", true));
    proof { reveal_strlit("sanshoku"); reveal_strlit("Sanshoku doujun"); }
    v.push(row("sanshoku", "Sanshoku doujun", true));
    proof { reveal_strlit("ittsu"); reveal_strlit("Ittsu"); }
    v.push(row("ittsu", "Ittsu", true));
    proof { reveal_strlit("chanta"); reveal_strlit("Chanta"); }
    v.push(row("chanta", "Chanta", true));
    proof { reveal_strlit("junchan"); reveal_strlit("Junchan"); }
    v.push(row("junchan", "Junchan", true));
    proof { reveal_strlit("toitoi"); reveal_strlit("Toitoi"); }
    v.push(row("toitoi", "Toitoi", true));
    proof { reveal_strlit("honitsu"); reveal_strlit("Honitsu"); }
    v.push(row("honitsu", "Honitsu", true));
    proof { reveal_strlit("chinitsu"); reveal_strlit("Chinitsu"); }
    v.push(row("chinitsu", "Chinitsu", true));
    proof { reveal_strlit("kokushi"); reveal_strlit("Kokushi musou"); }
    v.push(row("kokushi", "Kokushi musou", true));
    proof { reveal_strlit("suuankou"); reveal_strlit("Suuankou"); }
    v.push(row("suuankou", "Suuankou", true));
    proof { reveal_strlit("daisangen"); reveal_strlit("Daisangen"); }
    v.push(row("daisangen", "Daisangen", true));
    proof { reveal_strlit("shousuushii"); reveal_strlit("Shousuushii"); }
    v.push(row("shousuushii", "Shousuushii", true));
    proof { reveal_strlit("daisuushii"); reveal_strlit("Daisuushii"); }
    v.push(row("daisuushii", "Daisuushii", true));
    proof { reveal_strlit("chuuren"); reveal_strlit("Chuuren poutou"); }
    v.push(row("chuuren", "Chuuren poutou", true));
    proof { reveal_strlit("ryuuiisou"); reveal_strlit("Ryuuiisou"); }
    v.push(row("ryuuiisou", "Ryuuiisou", true));
    proof { reveal_strlit("suukantsu"); reveal_strlit("Suukantsu"); }
    v.push(row("suukantsu", "Suukantsu", true));
    v
}

/// The rows whose yaku the engine scores, in catalog order.
pub fn implemented_rows() -> (v: Vec<CheatsheetRow>)
    ensures
        v@.len() == CATALOG_LEN,
        forall|i: int| 0 <= i < v@.len() ==> (#[trigger] v@[i]).id@ == row_id(i) && v@[i].label@ == row_label(i)
            && v@[i].implemented,
{
    let all = rows();
    let mut v: Vec<CheatsheetRow> = Vec::new();
    let mut i: usize = 0;
    while i < all.len()
        invariant
            i <= all@.len(),
            all@.len() == CATALOG_LEN,
            forall|k: int| 0 <= k < all@.len() ==> (#[trigger] all@[k]).id@ == row_id(k) && all@[k].label@ == row_label(k)
                && all@[k].implemented,
            v@.len() == i,
            forall|k: int| 0 <= k < i ==> (#[trigger] v@[k]) == all@[k],
        decreases all@.len() - i,
    {
        if all[i].implemented {
            v.push(all[i]);
        }
        i = i + 1;
    }
    v
}

/// The rows whose yaku the engine does not score yet (none).
pub fn not_implemented_rows() -> (v: Vec<CheatsheetRow>)
    ensures
        v@.len() == 0,
{
    let all = rows();
    let mut v: Vec<CheatsheetRow> = Vec::new();
    let mut i: usize = 0;
    while i < all.len()
        invariant
            i <= all@.len(),
            forall|k: int| 0 <= k < all@.len() ==> (#[trigger] all@[k]).implemented,
            v@.len() == 0,
        decreases all@.len() - i,
    {
        if !all[i].implemented {
            v.push(all[i]);
        }
        i = i + 1;
    }
    v
}

} // verus!
