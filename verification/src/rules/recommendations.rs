//! Scored paths toward a winning hand, for planning views, and how they are shown.

use vstd::prelude::*;
use vstd::string::*;

use crate::scoring::{WinType, Yaku, yaku_label};
use crate::text::{decimal, decimal_string, push_str, signed_decimal, signed_string};
use crate::tile::{Tile, sort_tiles, sorted, tile_label};

verus! {

/// One scored path toward a winning hand.
#[derive(Debug, Clone, PartialEq, Eq)]
pub struct Recommendation {
    /// −1 = winning hand now, 0 = tenpai, 1+ = tiles away from tenpai.
    pub shanten: i8,
    /// Distinct tiles that complete this path (0 when already complete).
    pub wait_count: usize,
    /// Representative completing tile when applicable.
    pub win_tile: Option<Tile>,
    pub yaku: Vec<Yaku>,
    pub han: u8,
    pub fu: u8,
    pub dora: u8,
    pub ura_dora: u8,
    pub aka_dora: u8,
    pub expected_points: i32,
    pub win_type: WinType,
}

/// One grouped set in a hand path (sequence, triplet, pair, or open meld).
#[derive(Debug, Clone, PartialEq, Eq)]
pub struct PathGroup {
    pub tiles: Vec<Tile>,
    /// Open meld on the table (chi / pon / kan).
    pub open: bool,
}

/// Concrete hand shape for a recommendation row.
#[derive(Debug, Clone, PartialEq, Eq)]
pub struct PathDecomposition {
    pub groups: Vec<PathGroup>,
    /// Tile(s) that complete this path from the current visible hand.
    pub missing: Vec<Tile>,
    /// Discard that reaches tenpai (1-shanten rows only).
    pub suggested_discard: Option<Tile>,
}

/// `parts` joined with `sep` between consecutive parts.
pub open spec fn join(parts: Seq<Seq<char>>, sep: Seq<char>) -> Seq<char>
    decreases parts.len(),
{
    if parts.len() == 0 {
        Seq::empty()
    } else if parts.len() == 1 {
        parts[0]
    } else {
        join(parts.drop_last(), sep) + sep + parts.last()
    }
}

/// The labels of `tiles`, run together.
pub open spec fn labels(tiles: Seq<Tile>) -> Seq<char>
    decreases tiles.len(),
{
    if tiles.len() == 0 {
        Seq::empty()
    } else {
        labels(tiles.drop_last()) + tile_label(tiles.last())
    }
}

/// How a group is shown: its tiles in display order, bracketed when open.
pub open spec fn group_text(g: PathGroup, text: Seq<char>) -> bool {
    exists|t: Seq<Tile>|
        sorted(t) && t.to_multiset() == g.tiles@.to_multiset() && text == if g.open {
            seq!['['] + labels(t) + seq![']']
        } else {
            labels(t)
        }
}

/// "Need +a +b ..." for the missing tiles.
pub open spec fn need_line(missing: Seq<Tile>) -> Seq<char> {
    seq!['N', 'e', 'e', 'd', ' '] + join(missing.map_values(|t: Tile| seq!['+'] + tile_label(t)), seq![' '])
}

/// "Discard <tile> →".
pub open spec fn discard_line(t: Tile) -> Seq<char> {
    seq!['D', 'i', 's', 'c', 'a', 'r', 'd', ' '] + tile_label(t) + seq![' ', '→']
}

/// "Complete", "Tenpai (N waits)", "1-shanten" or "N-shanten".
pub open spec fn shanten_text(shanten: i8, waits: usize) -> Seq<char> {
    if shanten == -1 {
        seq!['C', 'o', 'm', 'p', 'l', 'e', 't', 'e']
    } else if shanten == 0 {
        seq!['T', 'e', 'n', 'p', 'a', 'i', ' ', '('] + decimal(waits as nat) + seq![' ', 'w', 'a', 'i', 't', 's', ')']
    } else if shanten == 1 {
        seq!['1', '-', 's', 'h', 'a', 'n', 't', 'e', 'n']
    } else {
        signed_decimal(shanten as int) + seq!['-', 's', 'h', 'a', 'n', 't', 'e', 'n']
    }
}

/// "Tsumo", or "Ron (seat N)" with seats numbered from 1.
pub open spec fn path_win_type_text(w: WinType) -> Seq<char> {
    match w {
        WinType::Tsumo => seq!['T', 's', 'u', 'm', 'o'],
        WinType::Ron { from } => seq!['R', 'o', 'n', ' ', '(', 's', 'e', 'a', 't', ' '] + decimal((from + 1) as nat) + seq![')'],
    }
}

/// "<yaku, comma separated> — <han> han / <fu> fu — +<points>".
pub open spec fn summary_text(r: Recommendation) -> Seq<char> {
    join(r.yaku@.map_values(|y: Yaku| yaku_label(y)), seq![',', ' ']) + seq![' ', '—', ' '] + decimal(r.han as nat) + seq![
        ' ',
        'h',
        'a',
        'n',
        ' ',
        '/',
        ' ',
    ] + decimal(r.fu as nat) + seq![' ', 'f', 'u', ' ', '—', ' ', '+'] + signed_decimal(r.expected_points as int)
}

/// `a` comes no later than `b`: more expected points first, then fewer shanten, then
/// fewer waits.
pub open spec fn ranks_before(a: Recommendation, b: Recommendation) -> bool {
    a.expected_points > b.expected_points || (a.expected_points == b.expected_points && (a.shanten < b.shanten || (
    a.shanten == b.shanten && a.wait_count <= b.wait_count)))
}

/// Paths in ranking order.
pub open spec fn ranked(s: Seq<Recommendation>) -> bool {
    forall|i: int, j: int| 0 <= i < j < s.len() ==> ranks_before(s[i], s[j])
}

/// `a` and `b` rank equally: the same expected points, shanten and wait count.
pub open spec fn same_rank(a: Recommendation, b: Recommendation) -> bool {
    a.expected_points == b.expected_points && a.shanten == b.shanten && a.wait_count == b.wait_count
}

/// The paths of `s` that rank equally with `r`, in their order in `s`.
pub open spec fn rank_class(s: Seq<Recommendation>, r: Recommendation) -> Seq<Recommendation> {
    s.filter(|y: Recommendation| same_rank(y, r))
}

/// `b` is `a` in ranking order, ties kept in their order in `a`.
pub open spec fn sorted_from(a: Seq<Recommendation>, b: Seq<Recommendation>) -> bool {
    &&& ranked(b)
    &&& b.to_multiset() == a.to_multiset()
    &&& forall|r: Recommendation| #[trigger] rank_class(b, r) == rank_class(a, r)
}

fn ranks_before_exec(a: &Recommendation, b: &Recommendation) -> (r: bool)
    ensures
        r == ranks_before(*a, *b),
{
    a.expected_points > b.expected_points || (a.expected_points == b.expected_points && (a.shanten < b.shanten || (
    a.shanten == b.shanten && a.wait_count <= b.wait_count)))
}

/// Sorts paths by expected score, then closeness (shanten, then wait count); paths that
/// tie keep their order.
pub fn sort_recommendations(paths: &mut Vec<Recommendation>)
    ensures
        ranked(final(paths)@),
        final(paths)@.to_multiset() == old(paths)@.to_multiset(),
        forall|r: Recommendation| #[trigger] rank_class(final(paths)@, r) == rank_class(old(paths)@, r),
        sorted_from(old(paths)@, final(paths)@),
{
    broadcast use {vstd::seq_lib::group_to_multiset_ensures, vstd::multiset::group_multiset_axioms};
    let ghost orig = paths@;
    let mut out: Vec<Recommendation> = Vec::new();
    while paths.len() > 0
        invariant
            ranked(out@),
            out@.to_multiset().add(paths@.to_multiset()) == orig.to_multiset(),
            paths@.len() <= orig.len(),
            paths@ == orig.take(paths@.len() as int),
            forall|r: Recommendation| #[trigger] rank_class(out@, r) == rank_class(orig.skip(paths@.len() as int), r),
        decreases paths@.len(),
    {
        let ghost before_paths = paths@;
        let x = paths.pop().unwrap();
        proof {
            assert(before_paths =~= paths@.push(x));
            assert(paths@ =~= orig.take(paths@.len() as int));
            assert(orig.skip(paths@.len() as int) =~= seq![x] + orig.skip(before_paths.len() as int));
        }
        let mut pos: usize = 0;
        while pos < out.len() && ranks_before_exec(&out[pos], &x) && !ranks_before_exec(&x, &out[pos])
            invariant
                pos <= out@.len(),
                forall|j: int| 0 <= j < pos ==> ranks_before(out@[j], x) && !ranks_before(x, out@[j]),
            decreases out@.len() - pos,
        {
            pos = pos + 1;
        }
        let ghost before = out@;
        out.insert(pos, x);
        proof {
            assert forall|j: int| pos <= j < before.len() implies ranks_before(x, before[j]) by {
                if pos < before.len() {
                    assert(ranks_before(x, before[pos as int]));
                    assert(ranks_before(before[pos as int], before[j]));
                }
            }
            assert forall|i: int, j: int| 0 <= i < j < out@.len() implies ranks_before(out@[i], out@[j]) by {
                if j < pos {
                    assert(out@[i] == before[i] && out@[j] == before[j]);
                } else if j == pos {
                    assert(out@[i] == before[i]);
                } else if i < pos {
                    assert(out@[i] == before[i] && out@[j] == before[j - 1]);
                    if j - 1 >= pos {
                        assert(ranks_before(before[i], before[j - 1]));
                    }
                } else if i == pos {
                    assert(out@[j] == before[j - 1]);
                } else {
                    assert(out@[i] == before[i - 1] && out@[j] == before[j - 1]);
                }
            }
            assert(out@ == before.insert(pos as int, x));
            let head = before.take(pos as int);
            let tail = before.skip(pos as int);
            assert(out@ =~= head + (seq![x] + tail));
            assert(before =~= head + tail);
            let nxt = orig.skip(paths@.len() as int);
            assert(nxt =~= seq![x] + orig.skip(before_paths.len() as int));
            assert forall|r: Recommendation| #[trigger] rank_class(out@, r) == rank_class(nxt, r) by {
                let p = |y: Recommendation| same_rank(y, r);
                Seq::filter_distributes_over_add(head, seq![x] + tail, p);
                Seq::filter_distributes_over_add(head, tail, p);
                tail.lemma_filter_prepend(x, p);
                orig.skip(before_paths.len() as int).lemma_filter_prepend(x, p);
                if same_rank(x, r) {
                    assert forall|j: int| 0 <= j < head.len() implies !p(#[trigger] head[j]) by {
                        assert(head[j] == before[j]);
                    }
                    head.lemma_all_neg_filter_empty(p);
                    assert(head.filter(p) =~= Seq::<Recommendation>::empty());
                    assert(rank_class(before, r) == head.filter(p) + tail.filter(p));
                } else {
                    assert(rank_class(before, r) == head.filter(p) + tail.filter(p));
                }
            }
            vstd::seq_lib::to_multiset_insert(before, pos as int, x);
            assert(out@.to_multiset() == before.to_multiset().insert(x));
            assert(before_paths.to_multiset() == paths@.push(x).to_multiset());
            paths@.to_multiset_ensures();
            assert(paths@.push(x).to_multiset() == paths@.to_multiset().insert(x));
            assert(out@.to_multiset().add(paths@.to_multiset()) =~= before.to_multiset().add(before_paths.to_multiset()));
        }
    }
    proof {
        assert(orig.skip(0) =~= orig);
        paths@.to_multiset_ensures();
        vstd::multiset::lemma_multiset_empty_len(paths@.to_multiset());
        assert(paths@.to_multiset().len() == 0);
        assert(out@.to_multiset().add(paths@.to_multiset()) =~= out@.to_multiset());
    }
    *paths = out;
}

impl Recommendation {
    /// How far the path is from a win, for display.
    pub fn shanten_label(&self) -> (s: String)
        ensures
            s@ == shanten_text(self.shanten, self.wait_count),
    {
        if self.shanten == -1 {
            proof { reveal_strlit("Complete"); }
            String::from_str("Complete")
        } else if self.shanten == 0 {
            proof { reveal_strlit("Tenpai ("); }
            let mut s = String::from_str("Tenpai (");
            push_str(&mut s, decimal_string(self.wait_count as u64).as_str());
            proof { reveal_strlit(" waits)"); }
            push_str(&mut s, " waits)");
            s
        } else if self.shanten == 1 {
            proof { reveal_strlit("1-shanten"); }
            String::from_str("1-shanten")
        } else {
            let mut s = signed_string(self.shanten as i64);
            proof { reveal_strlit("-shanten"); }
            push_str(&mut s, "-shanten");
            s
        }
    }

    /// How the path wins, for display.
    pub fn win_type_label(&self) -> (s: String)
        requires
            self.win_type matches WinType::Ron { from } ==> from < usize::MAX,
        ensures
            s@ == path_win_type_text(self.win_type),
    {
        match self.win_type {
            WinType::Tsumo => {
                proof { reveal_strlit("Tsumo"); }
                String::from_str("Tsumo")
            },
            WinType::Ron { from } => {
                proof { reveal_strlit("Ron (seat "); }
                let mut s = String::from_str("Ron (seat ");
                push_str(&mut s, decimal_string((from + 1) as u64).as_str());
                proof { reveal_strlit(")"); }
                push_str(&mut s, ")");
                s
            },
        }
    }

    /// Yaku, han, fu and expected points on one line.
    pub fn summary_line(&self) -> (s: String)
        ensures
            s@ == summary_text(*self),
    {
        let mut s = String::new();
        let mut i: usize = 0;
        while i < self.yaku.len()
            invariant
                i <= self.yaku@.len(),
                s@ == join(self.yaku@.take(i as int).map_values(|y: Yaku| yaku_label(y)), seq![',', ' ']),
            decreases self.yaku@.len() - i,
        {
            proof {
                let parts = self.yaku@.take(i + 1).map_values(|y: Yaku| yaku_label(y));
                assert(parts.drop_last() =~= self.yaku@.take(i as int).map_values(|y: Yaku| yaku_label(y)));
            }
            if i > 0 {
                proof { reveal_strlit(", "); }
                push_str(&mut s, ", ");
            }
            push_str(&mut s, self.yaku[i].label());
            i = i + 1;
        }
        proof {
            assert(self.yaku@.take(self.yaku@.len() as int) =~= self.yaku@);
            reveal_strlit(" — ");
            reveal_strlit(" han / ");
            reveal_strlit(" fu — +");
        }
        push_str(&mut s, " — ");
        push_str(&mut s, decimal_string(self.han as u64).as_str());
        push_str(&mut s, " han / ");
        push_str(&mut s, decimal_string(self.fu as u64).as_str());
        push_str(&mut s, " fu — +");
        push_str(&mut s, signed_string(self.expected_points as i64).as_str());
        s
    }
}

/// The labels of `tiles` run together.
fn labels_string(tiles: &[Tile]) -> (s: String)
    ensures
        s@ == labels(tiles@),
{
    let mut s = String::new();
    let mut i: usize = 0;
    while i < tiles.len()
        invariant
            i <= tiles@.len(),
            s@ == labels(tiles@.take(i as int)),
        decreases tiles@.len() - i,
    {
        proof {
            assert(tiles@.take(i + 1).drop_last() =~= tiles@.take(i as int));
        }
        push_str(&mut s, tiles[i].to_string().as_str());
        i = i + 1;
    }
    proof {
        assert(tiles@.take(tiles@.len() as int) =~= tiles@);
    }
    s
}

/// A group's tiles in display order, bracketed when open.
pub fn format_group(group: &PathGroup) -> (s: String)
    ensures
        group_text(*group, s@),
{
    let mut tiles = crate::hand::copy_tiles(group.tiles.as_slice());
    sort_tiles(&mut tiles);
    let body = labels_string(tiles.as_slice());
    let ghost t = tiles@;
    proof {
        assert(sorted(t) && t.to_multiset() == group.tiles@.to_multiset());
    }
    if group.open {
        proof { reveal_strlit("["); reveal_strlit("]"); }
        let mut s = String::from_str("[");
        push_str(&mut s, body.as_str());
        push_str(&mut s, "]");
        proof {
            assert(s@ == seq!['['] + labels(t) + seq![']']);
        }
        s
    } else {
        proof {
            assert(body@ == labels(t));
        }
        body
    }
}

impl PathDecomposition {
    /// No groups, nothing missing, no discard.
    pub fn empty() -> (d: PathDecomposition)
        ensures
            d.groups@.len() == 0,
            d.missing@.len() == 0,
            d.suggested_discard is None,
    {
        PathDecomposition { groups: Vec::new(), missing: Vec::new(), suggested_discard: None }
    }

    /// The display lines: the suggested discard, the groups, then the missing tiles, each
    /// only when present.
    pub fn format_lines(&self) -> (lines: Vec<String>)
        ensures
            lines@.len() == (if self.suggested_discard is Some { 1int } else { 0 }) + (if self.groups@.len() > 0 {
                1int
            } else {
                0
            }) + (if self.missing@.len() > 0 { 1int } else { 0 }),
            self.suggested_discard matches Some(d) ==> lines@[0]@ == discard_line(d),
            self.groups@.len() > 0 ==> exists|texts: Seq<Seq<char>>|
                texts.len() == self.groups@.len() && (forall|k: int| 0 <= k < texts.len() ==> group_text(
                    #[trigger] self.groups@[k],
                    texts[k],
                )) && lines@[if self.suggested_discard is Some { 1int } else { 0 }]@ == join(texts, seq![' ']),
            self.missing@.len() > 0 ==> lines@.last()@ == need_line(self.missing@),
    {
        let mut lines: Vec<String> = Vec::new();
        if let Some(d) = self.suggested_discard {
            proof { reveal_strlit("Discard "); reveal_strlit(" →"); }
            let mut s = String::from_str("Discard ");
            push_str(&mut s, d.to_string().as_str());
            push_str(&mut s, " →");
            lines.push(s);
        }
        let ghost at = lines@.len();
        if self.groups.len() > 0 {
            let mut s = String::new();
            let ghost mut texts: Seq<Seq<char>> = Seq::empty();
            let mut i: usize = 0;
            while i < self.groups.len()
                invariant
                    i <= self.groups@.len(),
                    texts.len() == i,
                    forall|k: int| 0 <= k < i ==> group_text(#[trigger] self.groups@[k], texts[k]),
                    s@ == join(texts, seq![' ']),
                decreases self.groups@.len() - i,
            {
                let g = format_group(&self.groups[i]);
                if i > 0 {
                    proof { reveal_strlit(" "); }
                    push_str(&mut s, " ");
                }
                push_str(&mut s, g.as_str());
                proof {
                    let t2 = texts.push(g@);
                    assert(t2.drop_last() =~= texts);
                    texts = t2;
                }
                i = i + 1;
            }
            lines.push(s);
        }
        if self.missing.len() > 0 {
            proof { reveal_strlit("Need "); }
            let mut s = String::from_str("Need ");
            let mut i: usize = 0;
            while i < self.missing.len()
                invariant
                    i <= self.missing@.len(),
                    s@ == seq!['N', 'e', 'e', 'd', ' '] + join(
                        self.missing@.take(i as int).map_values(|t: Tile| seq!['+'] + tile_label(t)),
                        seq![' '],
                    ),
                decreases self.missing@.len() - i,
            {
                proof {
                    let parts = self.missing@.take(i + 1).map_values(|t: Tile| seq!['+'] + tile_label(t));
                    assert(parts.drop_last() =~= self.missing@.take(i as int).map_values(|t: Tile| seq!['+'] + tile_label(t)));
                }
                if i > 0 {
                    proof { reveal_strlit(" "); }
                    push_str(&mut s, " ");
                }
                proof { reveal_strlit("+"); }
                push_str(&mut s, "+");
                push_str(&mut s, self.missing[i].to_string().as_str());
                i = i + 1;
            }
            proof {
                assert(self.missing@.take(self.missing@.len() as int) =~= self.missing@);
            }
            lines.push(s);
        }
        lines
    }
}

} // verus!
