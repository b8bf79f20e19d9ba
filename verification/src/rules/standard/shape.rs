//! Standard hand shape: tiles that split into sets (triplets and runs) and a pair.
//!
//! The shape is defined over the multiset of tiles; the search below works on a
//! sorted list and is proved to agree with that definition in both directions.

use vstd::prelude::*;
use vstd::multiset::Multiset;

use crate::hand::{copy_tiles, find_tile};
use crate::tile::sort::lemma_tile_key_injective;
use crate::tile::{Tile, numbered_tile, sorted, tile_key, tile_rank, tile_suit};

verus! {

broadcast use {vstd::seq_lib::group_to_multiset_ensures, vstd::multiset::group_multiset_axioms};

/// Three identical tiles (the aka marking counts: a red five is not a plain five).
pub open spec fn is_triplet(a: Tile, b: Tile, c: Tile) -> bool {
    a == b && b == c
}

/// A run: `a` has rank `r <= 7` in some suit, `b` and `c` are the plain tiles of rank
/// `r + 1` and `r + 2` of that suit.
pub open spec fn is_run(a: Tile, b: Tile, c: Tile) -> bool {
    match (tile_suit(a), tile_rank(a)) {
        (Some(s), Some(r)) => r <= 7 && b == numbered_tile(s, (r + 1) as u8) && c == numbered_tile(
            s,
            (r + 2) as u8,
        ),
        _ => false,
    }
}

/// A set (mentsu): a triplet or a run.
pub open spec fn is_set(a: Tile, b: Tile, c: Tile) -> bool {
    is_triplet(a, b, c) || is_run(a, b, c)
}

/// The multiset holding `a`, `b` and `c`.
pub open spec fn three(a: Tile, b: Tile, c: Tile) -> Multiset<Tile> {
    Multiset::empty().insert(a).insert(b).insert(c)
}

/// `m` splits into exactly `n` sets with nothing left over.
pub open spec fn splits_into_sets(m: Multiset<Tile>, n: nat) -> bool
    decreases n,
{
    if n == 0 {
        m.len() == 0
    } else {
        exists|a: Tile, b: Tile, c: Tile|
            #[trigger] is_set(a, b, c) && three(a, b, c).subset_of(m) && splits_into_sets(
                m.sub(three(a, b, c)),
                (n - 1) as nat,
            )
    }
}

/// `m` is one pair plus `n` sets.
pub open spec fn standard_form(m: Multiset<Tile>, n: nat) -> bool {
    exists|p: Tile| m.count(p) >= 2 && #[trigger] splits_into_sets(m.remove(p).remove(p), n)
}

pub proof fn lemma_three_count(a: Tile, b: Tile, c: Tile, x: Tile)
    ensures
        three(a, b, c).count(x) == (if x == a { 1nat } else { 0nat }) + (if x == b {
            1nat
        } else {
            0nat
        }) + (if x == c { 1nat } else { 0nat }),
        three(a, b, c).len() == 3,
{
}

/// Whichever tile one picks from a multiset that splits into sets, some set of a
/// splitting contains it.
proof fn lemma_set_containing(m: Multiset<Tile>, n: nat, x: Tile) -> (r: (Tile, Tile, Tile))
    requires
        splits_into_sets(m, n),
        m.count(x) > 0,
    ensures
        n > 0,
        is_set(r.0, r.1, r.2),
        x == r.0 || x == r.1 || x == r.2,
        three(r.0, r.1, r.2).subset_of(m),
        splits_into_sets(m.sub(three(r.0, r.1, r.2)), (n - 1) as nat),
    decreases n,
{
    if n == 0 {
        assert(m.count(x) <= m.len());
        assert(false);
    }
    let (a, b, c) = choose|a: Tile, b: Tile, c: Tile|
        #[trigger] is_set(a, b, c) && three(a, b, c).subset_of(m) && splits_into_sets(
            m.sub(three(a, b, c)),
            (n - 1) as nat,
        );
    if x == a || x == b || x == c {
        (a, b, c)
    } else {
        let t1 = three(a, b, c);
        let rest = m.sub(t1);
        lemma_three_count(a, b, c, x);
        assert(rest.count(x) > 0);
        let (a2, b2, c2) = lemma_set_containing(rest, (n - 1) as nat, x);
        let t2 = three(a2, b2, c2);
        let m2 = m.sub(t2);
        assert(t2.subset_of(m)) by {
            assert forall|v: Tile| t2.count(v) <= m.count(v) by {
                assert(t2.count(v) <= rest.count(v));
                assert(t1.count(v) <= m.count(v));
            }
        }
        assert(t1.subset_of(m2)) by {
            assert forall|v: Tile| t1.count(v) <= m2.count(v) by {
                assert(t2.count(v) <= rest.count(v));
                assert(t1.count(v) <= m.count(v));
            }
        }
        assert(m2.sub(t1) =~= rest.sub(t2)) by {
            assert forall|v: Tile| m2.sub(t1).count(v) == rest.sub(t2).count(v) by {
                assert(t2.count(v) <= rest.count(v));
                assert(t1.count(v) <= m.count(v));
            }
        }
        assert(is_set(a, b, c));
        assert(splits_into_sets(m2, (n - 1) as nat));
        (a2, b2, c2)
    }
}

/// In a sorted list the first tile is a smallest one.
pub proof fn lemma_sorted_first_min(s: Seq<Tile>, y: Tile)
    requires
        sorted(s),
        s.len() > 0,
        s.to_multiset().count(y) > 0,
    ensures
        tile_key(s[0]) <= tile_key(y),
{
    assert(s.contains(y));
    let j = choose|j: int| 0 <= j < s.len() && s[j] == y;
    assert(tile_key(s[0]) <= tile_key(s[j]));
}

/// In a sorted list, a first tile that occurs at least twice is followed by itself.
proof fn lemma_sorted_second_copy(s: Seq<Tile>)
    requires
        sorted(s),
        s.len() > 0,
        s.to_multiset().count(s[0]) >= 2,
    ensures
        s.len() >= 2,
        s[1] == s[0],
        s.drop_first().to_multiset().count(s[0]) == s.to_multiset().count(s[0]) - 1,
{
    let x = s[0];
    assert(s.drop_first() =~= s.remove(0));
    assert(s.drop_first().to_multiset().count(x) > 0);
    assert(s.drop_first().contains(x));
    let j = choose|j: int| 0 <= j < s.drop_first().len() && s.drop_first()[j] == x;
    assert(s[j + 1] == x);
    assert(tile_key(s[1]) <= tile_key(s[j + 1]));
    assert(tile_key(s[0]) <= tile_key(s[1]));
    lemma_tile_key_injective(s[1], x);
}

/// The plain tiles of a run sort after its first tile.
pub proof fn lemma_run_keys(a: Tile, b: Tile, c: Tile)
    requires
        is_run(a, b, c),
    ensures
        tile_key(a) < tile_key(b),
        tile_key(b) < tile_key(c),
{
}

pub proof fn lemma_sorted_remove(s: Seq<Tile>, i: int)
    requires
        sorted(s),
        0 <= i < s.len(),
    ensures
        sorted(s.remove(i)),
{
    let r = s.remove(i);
    assert forall|p: int, q: int| 0 <= p <= q < r.len() implies tile_key(r[p]) <= tile_key(
        r[q],
    ) by {
        let pp = if p < i { p } else { p + 1 };
        let qq = if q < i { q } else { q + 1 };
        assert(r[p] == s[pp]);
        assert(r[q] == s[qq]);
    }
}

/// The list without its first `k` tiles.
fn drop_front(tiles: &Vec<Tile>, k: usize) -> (v: Vec<Tile>)
    requires
        k <= tiles@.len(),
    ensures
        v@ == tiles@.subrange(k as int, tiles@.len() as int),
{
    let mut v: Vec<Tile> = Vec::new();
    let mut i: usize = k;
    while i < tiles.len()
        invariant
            k <= i <= tiles@.len(),
            v@ == tiles@.subrange(k as int, i as int),
        decreases tiles@.len() - i,
    {
        v.push(tiles[i]);
        i = i + 1;
        assert(v@ =~= tiles@.subrange(k as int, i as int));
    }
    v
}

/// Removes the first occurrence of `t`, reporting whether there was one.
fn take_out(v: &mut Vec<Tile>, t: Tile) -> (found: bool)
    ensures
        found == old(v)@.contains(t),
        found ==> final(v)@.to_multiset() == old(v)@.to_multiset().remove(t),
        found ==> exists|i: int| 0 <= i < old(v)@.len() && final(v)@ == old(v)@.remove(i),
        !found ==> final(v)@ == old(v)@,
{
    match find_tile(v.as_slice(), t) {
        Some(i) => {
            let ghost before = v@;
            v.remove(i);
            assert(before.remove(i as int).to_multiset() =~= before.to_multiset().remove(
                before[i as int],
            ));
            true
        },
        None => false,
    }
}

/// The two plain tiles that follow `t` in a run (meaningful for numbered `t`).
pub open spec fn run_partners(t: Tile) -> (Tile, Tile) {
    match tile_suit(t) {
        Some(s) => (
            numbered_tile(s, (tile_rank(t)->0 + 1) as u8),
            numbered_tile(s, (tile_rank(t)->0 + 2) as u8),
        ),
        None => (t, t),
    }
}

/// `t` is a numbered tile of rank at most 7 and its run lies inside `m`.
pub open spec fn run_available(t: Tile, m: Multiset<Tile>) -> bool {
    &&& tile_suit(t) is Some
    &&& tile_rank(t) is Some
    &&& tile_rank(t)->0 <= 7
    &&& three(t, run_partners(t).0, run_partners(t).1).subset_of(m)
}

/// The triplet of `t` can be taken out of `m` and the rest splits into `n - 1` sets.
pub open spec fn triplet_rest_splits(t: Tile, m: Multiset<Tile>, n: nat) -> bool {
    m.count(t) >= 3 && splits_into_sets(m.sub(three(t, t, t)), (n - 1) as nat)
}

/// The run starting at `t` can be taken out of `m` and the rest splits into `n - 1` sets.
pub open spec fn run_rest_splits(t: Tile, m: Multiset<Tile>, n: nat) -> bool {
    run_available(t, m) && splits_into_sets(
        m.sub(three(t, run_partners(t).0, run_partners(t).1)),
        (n - 1) as nat,
    )
}

/// If a sorted list splits into sets, its first tile starts a triplet or a run of a
/// splitting.
proof fn lemma_first_tile_set(s: Seq<Tile>, n: nat)
    requires
        sorted(s),
        s.len() > 0,
        splits_into_sets(s.to_multiset(), n),
    ensures
        n > 0,
        triplet_rest_splits(s[0], s.to_multiset(), n) || run_rest_splits(s[0], s.to_multiset(), n),
{
    let m = s.to_multiset();
    let x = s[0];
    assert(m.count(x) > 0);
    let (a, b, c) = lemma_set_containing(m, n, x);
    lemma_three_count(a, b, c, a);
    lemma_three_count(a, b, c, b);
    lemma_three_count(a, b, c, c);
    lemma_sorted_first_min(s, a);
    lemma_sorted_first_min(s, b);
    lemma_sorted_first_min(s, c);
    if is_run(a, b, c) {
        lemma_run_keys(a, b, c);
        assert(a == x);
        assert(run_rest_splits(x, m, n));
    } else {
        assert(a == x && b == x && c == x);
        assert(three(x, x, x).count(x) == 3);
        assert(triplet_rest_splits(x, m, n));
    }
}

/// What is left after taking the triplet of the first tile, if it has one.
pub fn rest_after_triplet(tiles: &Vec<Tile>) -> (r: Option<Vec<Tile>>)
    requires
        sorted(tiles@),
        tiles@.len() > 0,
    ensures
        r is Some <==> tiles@.to_multiset().count(tiles@[0]) >= 3,
        r matches Some(v) ==> sorted(v@) && v@.to_multiset() == tiles@.to_multiset().sub(
            three(tiles@[0], tiles@[0], tiles@[0]),
        ),
{
    let ghost s = tiles@;
    let ghost m = s.to_multiset();
    let t0 = tiles[0];
    if tiles.len() >= 3 && tiles[1] == t0 && tiles[2] == t0 {
        let rest = drop_front(tiles, 3);
        proof {
            assert forall|p: int, q: int| 0 <= p <= q < rest@.len() implies tile_key(rest@[p])
                <= tile_key(rest@[q]) by {
                assert(rest@[p] == s[p + 3]);
                assert(rest@[q] == s[q + 3]);
            }
            assert(s =~= seq![t0, t0, t0] + rest@);
            vstd::seq_lib::lemma_multiset_commutative(seq![t0, t0, t0], rest@);
            assert(seq![t0, t0, t0] =~= Seq::<Tile>::empty().push(t0).push(t0).push(t0));
            assert(seq![t0, t0, t0].to_multiset() =~= three(t0, t0, t0));
            lemma_three_count(t0, t0, t0, t0);
            assert(m.sub(three(t0, t0, t0)) =~= rest@.to_multiset());
        }
        Some(rest)
    } else {
        proof {
            if m.count(t0) >= 3 {
                lemma_sorted_second_copy(s);
                lemma_sorted_second_copy(s.drop_first());
                assert(false);
            }
        }
        None
    }
}

/// What is left after taking the run that starts at the first tile, if it is there.
pub fn rest_after_run(tiles: &Vec<Tile>) -> (r: Option<Vec<Tile>>)
    requires
        sorted(tiles@),
        tiles@.len() > 0,
    ensures
        r is Some <==> run_available(tiles@[0], tiles@.to_multiset()),
        r matches Some(v) ==> sorted(v@) && v@.to_multiset() == tiles@.to_multiset().sub(
            three(tiles@[0], run_partners(tiles@[0]).0, run_partners(tiles@[0]).1),
        ),
{
    let ghost s = tiles@;
    let ghost m = s.to_multiset();
    let t0 = tiles[0];
    let (suit, r) = match (t0.suit(), t0.rank()) {
        (Some(suit), Some(r)) => (suit, r),
        _ => {
            return None;
        },
    };
    if r > 7 {
        return None;
    }
    let t2 = Tile::numbered(suit, r + 1);
    let t3 = Tile::numbered(suit, r + 2);
    let mut rest = copy_tiles(tiles.as_slice());
    rest.remove(0);
    proof {
        assert(s.remove(0).to_multiset() =~= m.remove(t0));
        lemma_sorted_remove(s, 0);
        lemma_run_keys(t0, t2, t3);
        assert(run_partners(t0) == (t2, t3));
        lemma_three_count(t0, t2, t3, t0);
        lemma_three_count(t0, t2, t3, t2);
        lemma_three_count(t0, t2, t3, t3);
    }
    let ghost r1 = rest@;
    let f2 = take_out(&mut rest, t2);
    if !f2 {
        proof {
            assert(r1.to_multiset().count(t2) == 0);
            assert(three(t0, t2, t3).count(t2) > m.count(t2));
        }
        return None;
    }
    let ghost r2 = rest@;
    proof {
        let i = choose|i: int| 0 <= i < r1.len() && r2 == r1.remove(i);
        lemma_sorted_remove(r1, i);
    }
    let f3 = take_out(&mut rest, t3);
    if !f3 {
        proof {
            assert(r2.to_multiset().count(t3) == 0);
            assert(three(t0, t2, t3).count(t3) > m.count(t3));
        }
        return None;
    }
    proof {
        let i = choose|i: int| 0 <= i < r2.len() && rest@ == r2.remove(i);
        lemma_sorted_remove(r2, i);
        assert(rest@.to_multiset() =~= m.sub(three(t0, t2, t3))) by {
            assert forall|v: Tile|
                rest@.to_multiset().count(v) == m.sub(three(t0, t2, t3)).count(v) by {
                lemma_three_count(t0, t2, t3, v);
            }
        }
        assert(three(t0, t2, t3).subset_of(m)) by {
            assert forall|v: Tile| three(t0, t2, t3).count(v) <= m.count(v) by {
                lemma_three_count(t0, t2, t3, v);
                assert(m.count(t0) > 0);
                assert(r1.to_multiset().count(t2) > 0);
                assert(r2.to_multiset().count(t3) > 0);
            }
        }
    }
    Some(rest)
}

/// Whether the sorted `tiles` split into exactly `n` sets.
pub fn can_form_sets(tiles: &Vec<Tile>, n: usize) -> (r: bool)
    requires
        sorted(tiles@),
    ensures
        r == splits_into_sets(tiles@.to_multiset(), n as nat),
    decreases n,
{
    let ghost m = tiles@.to_multiset();
    let ghost s = tiles@;
    if n == 0 {
        return tiles.len() == 0;
    }
    if tiles.len() == 0 {
        proof {
            if splits_into_sets(m, n as nat) {
                let (a, b, c) = choose|a: Tile, b: Tile, c: Tile|
                    #[trigger] is_set(a, b, c) && three(a, b, c).subset_of(m) && splits_into_sets(
                        m.sub(three(a, b, c)),
                        (n - 1) as nat,
                    );
                lemma_three_count(a, b, c, a);
                assert(three(a, b, c).count(a) <= m.count(a));
                assert(m.count(a) <= m.len());
            }
        }
        return false;
    }
    let ghost t0 = s[0];
    if let Some(rest) = rest_after_triplet(tiles) {
        if can_form_sets(&rest, n - 1) {
            proof {
                assert(is_set(t0, t0, t0));
                lemma_three_count(t0, t0, t0, t0);
                assert(three(t0, t0, t0).subset_of(m));
            }
            return true;
        }
    }
    if let Some(rest) = rest_after_run(tiles) {
        if can_form_sets(&rest, n - 1) {
            proof {
                let (b, c) = run_partners(t0);
                assert(is_set(t0, b, c));
            }
            return true;
        }
    }
    proof {
        if splits_into_sets(m, n as nat) {
            lemma_first_tile_set(s, n as nat);
        }
    }
    false
}

/// How many copies of `t` the list holds.
pub fn count_tile(tiles: &[Tile], t: Tile) -> (n: usize)
    ensures
        n == tiles@.to_multiset().count(t),
{
    let mut n: usize = 0;
    let mut i: usize = 0;
    while i < tiles.len()
        invariant
            i <= tiles@.len(),
            n == tiles@.take(i as int).to_multiset().count(t),
            n <= i,
        decreases tiles@.len() - i,
    {
        proof {
            assert(tiles@.take(i + 1) =~= tiles@.take(i as int).push(tiles@[i as int]));
        }
        if tiles[i] == t {
            n = n + 1;
        }
        i = i + 1;
    }
    proof {
        assert(tiles@.take(tiles@.len() as int) =~= tiles@);
    }
    n
}

/// In a sorted list, a tile held at least twice sits next to a copy of itself.
pub proof fn lemma_sorted_adjacent_pair(s: Seq<Tile>, p: Tile) -> (i: int)
    requires
        sorted(s),
        s.to_multiset().count(p) >= 2,
    ensures
        0 <= i,
        i + 1 < s.len(),
        s[i] == p,
        s[i + 1] == p,
    decreases s.len(),
{
    assert(s.len() > 0) by {
        if s.len() == 0 {
            assert(s.to_multiset().count(p) <= s.to_multiset().len());
        }
    }
    if s[0] == p {
        lemma_sorted_second_copy(s);
        0
    } else {
        let t = s.drop_first();
        assert(s.drop_first() =~= s.remove(0));
        assert(t.to_multiset().count(p) == s.to_multiset().count(p));
        assert(sorted(t)) by {
            assert forall|a: int, b: int| 0 <= a <= b < t.len() implies tile_key(t[a]) <= tile_key(
                t[b],
            ) by {
                assert(t[a] == s[a + 1]);
                assert(t[b] == s[b + 1]);
            }
        }
        let j = lemma_sorted_adjacent_pair(t, p);
        j + 1
    }
}

/// Whether the sorted `tiles` are one pair plus exactly `n` sets.
pub fn can_form_mentsu_and_pair(tiles: &Vec<Tile>, n: usize) -> (r: bool)
    requires
        sorted(tiles@),
    ensures
        r == standard_form(tiles@.to_multiset(), n as nat),
{
    let ghost s = tiles@;
    let ghost m = s.to_multiset();
    let mut i: usize = 0;
    while i < tiles.len()
        invariant
            s == tiles@,
            m == s.to_multiset(),
            sorted(s),
            i <= s.len(),
            forall|k: int|
                0 <= k < i && k + 1 < s.len() && s[k] == s[k + 1] ==> !#[trigger] splits_into_sets(
                    m.remove(s[k]).remove(s[k]),
                    n as nat,
                ),
        decreases tiles@.len() - i,
    {
        if i + 1 < tiles.len() && tiles[i] == tiles[i + 1] {
            let p = tiles[i];
            let mut rest = copy_tiles(tiles.as_slice());
            rest.remove(i + 1);
            rest.remove(i);
            proof {
                let r1 = s.remove(i + 1);
                lemma_sorted_remove(s, i + 1);
                lemma_sorted_remove(r1, i as int);
                assert(r1.to_multiset() =~= m.remove(p));
                assert(r1[i as int] == p);
                assert(r1.remove(i as int).to_multiset() =~= m.remove(p).remove(p));
            }
            if can_form_sets(&rest, n) {
                proof {
                    assert(m.count(p) >= 2) by {
                        assert(m.remove(p).count(p) >= 1) by {
                            assert(s.remove(i + 1).to_multiset().count(p) > 0) by {
                                assert(s.remove(i + 1)[i as int] == p);
                            }
                        }
                    }
                }
                return true;
            }
        }
        i = i + 1;
    }
    proof {
        if standard_form(m, n as nat) {
            let p = choose|p: Tile| m.count(p) >= 2 && #[trigger] splits_into_sets(
                m.remove(p).remove(p),
                n as nat,
            );
            let k = lemma_sorted_adjacent_pair(s, p);
            assert(s[k] == s[k + 1]);
        }
    }
    false
}

} // verus!
