//! Every way a sorted list of tiles splits into sets, and every standard decomposition
//! (pair plus sets) of a winning hand.
//!
//! The enumeration is proved sound (each listed splitting is one) and complete up to the
//! order of the sets (every splitting is listed, possibly in another order).

use vstd::prelude::*;
use vstd::multiset::Multiset;

use crate::hand::copy_tiles;
use crate::tile::{Tile, sorted, tile_key};

use super::shape::{
    is_run, is_set, is_triplet, lemma_run_keys, lemma_sorted_first_min, lemma_three_count,
    rest_after_run, rest_after_triplet, run_available, run_partners, three,
};
use crate::tile::{numbered_tile, tile_rank, tile_suit};

verus! {

broadcast use {vstd::seq_lib::group_to_multiset_ensures, vstd::multiset::group_multiset_axioms};

/// Three tiles forming one set.
pub type SetTiles = (Tile, Tile, Tile);

pub open spec fn set_tiles(t: SetTiles) -> Multiset<Tile> {
    three(t.0, t.1, t.2)
}

/// All tiles of a list of sets.
pub open spec fn sum_sets(l: Seq<SetTiles>) -> Multiset<Tile>
    decreases l.len(),
{
    if l.len() == 0 {
        Multiset::empty()
    } else {
        sum_sets(l.drop_last()).add(set_tiles(l.last()))
    }
}

/// `l` is a splitting of `m` into `n` sets.
pub open spec fn splitting(l: Seq<SetTiles>, m: Multiset<Tile>, n: nat) -> bool {
    &&& l.len() == n
    &&& forall|j: int| 0 <= j < l.len() ==> is_set((#[trigger] l[j]).0, l[j].1, l[j].2)
    &&& sum_sets(l) == m
}

proof fn lemma_sum_sets_remove(l: Seq<SetTiles>, j: int)
    requires
        0 <= j < l.len(),
    ensures
        sum_sets(l) == sum_sets(l.remove(j)).add(set_tiles(l[j])),
    decreases l.len(),
{
    if j == l.len() - 1 {
        assert(l.remove(j) =~= l.drop_last());
    } else {
        lemma_sum_sets_remove(l.drop_last(), j);
        assert(l.remove(j).drop_last() =~= l.drop_last().remove(j));
        assert(l.remove(j).last() == l.last());
        assert(sum_sets(l) =~= sum_sets(l.remove(j)).add(set_tiles(l[j])));
    }
}

proof fn lemma_sum_sets_member(l: Seq<SetTiles>, x: Tile) -> (j: int)
    requires
        sum_sets(l).count(x) > 0,
    ensures
        0 <= j < l.len(),
        set_tiles(l[j]).count(x) > 0,
    decreases l.len(),
{
    if l.len() == 0 {
        assert(false);
        0
    } else if set_tiles(l.last()).count(x) > 0 {
        l.len() - 1
    } else {
        lemma_sum_sets_member(l.drop_last(), x)
    }
}

proof fn lemma_splitting_prepend(t: SetTiles, l: Seq<SetTiles>, m: Multiset<Tile>, n: nat)
    requires
        is_set(t.0, t.1, t.2),
        set_tiles(t).subset_of(m),
        splitting(l, m.sub(set_tiles(t)), n),
    ensures
        splitting(seq![t] + l, m, n + 1),
{
    let l2 = seq![t] + l;
    lemma_sum_sets_remove(l2, 0);
    assert(l2.remove(0) =~= l);
    assert(sum_sets(l2) =~= m) by {
        assert forall|v: Tile| sum_sets(l2).count(v) == m.count(v) by {
            assert(set_tiles(t).count(v) <= m.count(v));
        }
    }
    assert forall|j: int| 0 <= j < l2.len() implies is_set((#[trigger] l2[j]).0, l2[j].1, l2[j].2) by {
        if j > 0 {
            assert(l2[j] == l[j - 1]);
        }
    }
}

/// The list of sets `[t] ++ e`.
fn prepend(t: SetTiles, e: &Vec<SetTiles>) -> (v: Vec<SetTiles>)
    ensures
        v@ == seq![t] + e@,
{
    let mut v: Vec<SetTiles> = Vec::new();
    v.push(t);
    let mut i: usize = 0;
    while i < e.len()
        invariant
            i <= e@.len(),
            v@ == seq![t] + e@.take(i as int),
        decreases e@.len() - i,
    {
        v.push(e[i]);
        i = i + 1;
        assert(v@ =~= seq![t] + e@.take(i as int));
    }
    assert(e@.take(e@.len() as int) =~= e@);
    v
}

/// Every splitting of the sorted `tiles` into `n` sets, each led by its smallest tile.
pub fn enumerate_sets(tiles: &Vec<Tile>, n: usize) -> (out: Vec<Vec<SetTiles>>)
    requires
        sorted(tiles@),
    ensures
        forall|i: int| 0 <= i < out@.len() ==> splitting((#[trigger] out@[i])@, tiles@.to_multiset(), n as nat),
        forall|l: Seq<SetTiles>|
            splitting(l, tiles@.to_multiset(), n as nat) ==> exists|i: int|
                0 <= i < out@.len() && (#[trigger] out@[i])@.to_multiset() == l.to_multiset(),
    decreases n,
{
    let ghost s = tiles@;
    let ghost m = s.to_multiset();
    let mut out: Vec<Vec<SetTiles>> = Vec::new();
    if n == 0 {
        if tiles.len() == 0 {
            out.push(Vec::new());
            proof {
                assert(m =~= Multiset::empty()) by {
                    assert forall|v: Tile| m.count(v) == 0 by {
                        assert(m.count(v) <= m.len());
                    }
                }
                assert(out@[0]@ =~= Seq::<SetTiles>::empty());
                assert(splitting(out@[0]@, m, 0));
                assert forall|l: Seq<SetTiles>| splitting(l, m, 0) implies exists|i: int|
                    0 <= i < out@.len() && (#[trigger] out@[i])@.to_multiset() == l.to_multiset() by {
                    assert(l =~= Seq::<SetTiles>::empty());
                    assert(out@[0]@ =~= Seq::<SetTiles>::empty());
                }
            }
        } else {
            proof {
                assert forall|l: Seq<SetTiles>| !splitting(l, m, 0) by {
                    if splitting(l, m, 0) {
                        assert(l =~= Seq::<SetTiles>::empty());
                        assert(m.len() > 0);
                    }
                }
            }
        }
        return out;
    }
    if tiles.len() == 0 {
        proof {
            assert forall|l: Seq<SetTiles>| !splitting(l, m, n as nat) by {
                if splitting(l, m, n as nat) {
                    lemma_sum_sets_remove(l, 0);
                    assert(set_tiles(l[0]).count(l[0].0) > 0);
                    assert(sum_sets(l).count(l[0].0) > 0);
                }
            }
        }
        return out;
    }
    let t0 = tiles[0];
    let ghost trip = (t0, t0, t0);
    let ghost run = (t0, run_partners(t0).0, run_partners(t0).1);
    let mut n_trip: usize = 0;
    let ghost mut trip_sub: Seq<Vec<SetTiles>> = Seq::empty();
    let ghost mut trip_taken = false;
    if let Some(rest) = rest_after_triplet(tiles) {
        let sub = enumerate_sets(&rest, n - 1);
        let mut k: usize = 0;
        while k < sub.len()
            invariant
                k <= sub@.len(),
                out@.len() == k,
                trip == (t0, t0, t0),
                forall|i: int| 0 <= i < k ==> (#[trigger] out@[i])@ == seq![trip] + sub@[i]@,
            decreases sub@.len() - k,
        {
            out.push(prepend((t0, t0, t0), &sub[k]));
            k = k + 1;
        }
        n_trip = out.len();
        proof {
            trip_sub = sub@;
            trip_taken = true;
            assert(is_set(t0, t0, t0));
            assert forall|i: int| 0 <= i < out@.len() implies splitting((#[trigger] out@[i])@, m, n as nat) by {
                lemma_splitting_prepend(trip, sub@[i]@, m, (n - 1) as nat);
            }
        }
    }
    let ghost after_trip = out@;
    assert(forall|i: int| 0 <= i < after_trip.len() ==> splitting((#[trigger] after_trip[i])@, m, n as nat));
    let ghost mut run_sub: Seq<Vec<SetTiles>> = Seq::empty();
    let ghost mut run_taken = false;
    if let Some(rest) = rest_after_run(tiles) {
        let sub = enumerate_sets(&rest, n - 1);
        let (b, c) = run_pieces(t0);
        let mut k: usize = 0;
        while k < sub.len()
            invariant
                k <= sub@.len(),
                out@.len() == n_trip + k,
                n_trip == after_trip.len(),
                forall|i: int| 0 <= i < n_trip ==> (#[trigger] out@[i]) == after_trip[i],
                forall|i: int| 0 <= i < k ==> (#[trigger] out@[n_trip + i])@ == seq![(t0, b, c)] + sub@[i]@,
            decreases sub@.len() - k,
        {
            out.push(prepend((t0, b, c), &sub[k]));
            k = k + 1;
        }
        proof {
            run_sub = sub@;
            run_taken = true;
            lemma_run_keys_ok(t0);
            assert forall|i: int| n_trip <= i < out@.len() implies splitting((#[trigger] out@[i])@, m, n as nat) by {
                let k = i - n_trip;
                assert(out@[n_trip + k]@ == seq![(t0, b, c)] + sub@[k]@);
                assert(splitting(sub@[k]@, rest@.to_multiset(), (n - 1) as nat));
                lemma_splitting_prepend(run, sub@[k]@, m, (n - 1) as nat);
            }
            assert forall|i: int| 0 <= i < n_trip implies splitting((#[trigger] out@[i])@, m, n as nat) by {
                assert(out@[i] == after_trip[i]);
            }
        }
    }
    proof {
        assert forall|l: Seq<SetTiles>| splitting(l, m, n as nat) implies exists|i: int|
            0 <= i < out@.len() && (#[trigger] out@[i])@.to_multiset() == l.to_multiset() by {
            lemma_enum_complete(s, n as nat, out@, n_trip as int, trip_taken, trip_sub, run_taken, run_sub, l);
        }
    }
    out
}

proof fn lemma_enum_complete(
    s: Seq<Tile>,
    n: nat,
    out: Seq<Vec<SetTiles>>,
    n_trip: int,
    trip_taken: bool,
    trip_sub: Seq<Vec<SetTiles>>,
    run_taken: bool,
    run_sub: Seq<Vec<SetTiles>>,
    l: Seq<SetTiles>,
)
    requires
        sorted(s),
        s.len() > 0,
        splitting(l, s.to_multiset(), n),
        s.to_multiset().count(s[0]) >= 3 ==> trip_taken,
        run_available(s[0], s.to_multiset()) ==> run_taken,
        trip_taken ==> n_trip == trip_sub.len(),
        !trip_taken ==> n_trip == 0,
        trip_taken ==> forall|l2: Seq<SetTiles>|
            #[trigger] splitting(l2, s.to_multiset().sub(three(s[0], s[0], s[0])), (n - 1) as nat) ==> exists|i: int|
                0 <= i < trip_sub.len() && (#[trigger] trip_sub[i])@.to_multiset() == l2.to_multiset(),
        trip_taken ==> forall|i: int| 0 <= i < n_trip ==> (#[trigger] out[i])@ == seq![(s[0], s[0], s[0])] + trip_sub[i]@,
        run_taken ==> out.len() == n_trip + run_sub.len(),
        !run_taken ==> out.len() == n_trip,
        run_taken ==> forall|l2: Seq<SetTiles>|
            #[trigger] splitting(l2, s.to_multiset().sub(three(s[0], run_partners(s[0]).0, run_partners(s[0]).1)), (n - 1) as nat) ==> exists|i: int|
                0 <= i < run_sub.len() && (#[trigger] run_sub[i])@.to_multiset() == l2.to_multiset(),
        run_taken ==> forall|i: int| 0 <= i < run_sub.len() ==> (#[trigger] out[n_trip + i])@ == seq![(s[0], run_partners(s[0]).0, run_partners(s[0]).1)] + run_sub[i]@,
    ensures
        exists|i: int| 0 <= i < out.len() && (#[trigger] out[i])@.to_multiset() == l.to_multiset(),
{
    let m = s.to_multiset();
    let t0 = s[0];
    let trip = (t0, t0, t0);
    let run = (t0, run_partners(t0).0, run_partners(t0).1);
    let j = lemma_first_set_shape(s, l, n);
    let lr = l.remove(j);
    lemma_sum_sets_remove(l, j);
    assert forall|q: int| 0 <= q < lr.len() implies is_set((#[trigger] lr[q]).0, lr[q].1, lr[q].2) by {
        assert(lr[q] == (if q < j { l[q] } else { l[q + 1] }));
    }
    if l[j] == trip {
        assert(m.count(t0) >= 3) by {
            lemma_three_count(t0, t0, t0, t0);
            assert(set_tiles(l[j]).count(t0) <= m.count(t0));
        }
        assert(sum_sets(lr) =~= m.sub(three(t0, t0, t0)));
        assert(splitting(lr, m.sub(three(t0, t0, t0)), (n - 1) as nat));
        let i = choose|i: int| 0 <= i < trip_sub.len() && (#[trigger] trip_sub[i])@.to_multiset() == lr.to_multiset();
        lemma_mset_prepend(trip, trip_sub[i]@, l);
        assert(out[i]@.to_multiset() == l.to_multiset());
    } else {
        assert(sum_sets(lr) =~= m.sub(three(run.0, run.1, run.2)));
        assert(splitting(lr, m.sub(three(run.0, run.1, run.2)), (n - 1) as nat));
        let i = choose|i: int| 0 <= i < run_sub.len() && (#[trigger] run_sub[i])@.to_multiset() == lr.to_multiset();
        lemma_mset_prepend(run, run_sub[i]@, l);
        assert(out[n_trip + i]@.to_multiset() == l.to_multiset());
    }
}

/// The plain tiles that follow `t` in a run.
fn run_pieces(t: Tile) -> (p: (Tile, Tile))
    requires
        tile_suit(t) is Some,
        tile_rank(t) is Some,
        tile_rank(t)->0 <= 7,
    ensures
        p == run_partners(t),
{
    let suit = match t.suit() {
        Some(s) => s,
        None => {
            proof {
                assert(false);
            }
            crate::tile::Suit::Man
        },
    };
    let r = match t.rank() {
        Some(r) => r,
        None => 0,
    };
    (Tile::numbered(suit, r + 1), Tile::numbered(suit, r + 2))
}

proof fn lemma_run_keys_ok(t: Tile)
    requires
        tile_suit(t) is Some,
        tile_rank(t) is Some,
        tile_rank(t)->0 <= 7,
    ensures
        is_run(t, run_partners(t).0, run_partners(t).1),
        is_set(t, run_partners(t).0, run_partners(t).1),
{
}

/// `[t] ++ e` holds the same sets as `l` when `e` holds those of `l` but `t`.
proof fn lemma_mset_prepend(t: SetTiles, e: Seq<SetTiles>, l: Seq<SetTiles>)
    ensures
        (seq![t] + e).to_multiset() == e.to_multiset().insert(t),
{
    vstd::seq_lib::lemma_multiset_commutative(seq![t], e);
    assert(seq![t] =~= Seq::<SetTiles>::empty().push(t));
    assert((seq![t] + e).to_multiset() =~= e.to_multiset().insert(t));
}

/// In a splitting of a sorted list, the set holding the first tile is its triplet or the
/// run it starts.
proof fn lemma_first_set_shape(s: Seq<Tile>, l: Seq<SetTiles>, n: nat) -> (j: int)
    requires
        sorted(s),
        s.len() > 0,
        splitting(l, s.to_multiset(), n),
    ensures
        0 <= j < l.len(),
        l[j] == (s[0], s[0], s[0]) || (run_available(s[0], s.to_multiset()) && l[j] == (
            s[0],
            run_partners(s[0]).0,
            run_partners(s[0]).1,
        )),
        l.remove(j).to_multiset().insert(l[j]) == l.to_multiset(),
{
    let m = s.to_multiset();
    let x = s[0];
    assert(m.count(x) > 0);
    let j = lemma_sum_sets_member(l, x);
    lemma_sum_sets_remove(l, j);
    let (a, b, c) = l[j];
    lemma_three_count(a, b, c, a);
    lemma_three_count(a, b, c, b);
    lemma_three_count(a, b, c, c);
    lemma_three_count(a, b, c, x);
    assert(set_tiles(l[j]).subset_of(m)) by {
        assert forall|v: Tile| set_tiles(l[j]).count(v) <= m.count(v) by {
        }
    }
    assert(m.count(a) > 0 && m.count(b) > 0 && m.count(c) > 0) by {
        assert(set_tiles(l[j]).count(a) <= m.count(a));
        assert(set_tiles(l[j]).count(b) <= m.count(b));
        assert(set_tiles(l[j]).count(c) <= m.count(c));
    }
    lemma_sorted_first_min(s, a);
    lemma_sorted_first_min(s, b);
    lemma_sorted_first_min(s, c);
    assert(is_set(a, b, c));
    if is_run(a, b, c) {
        lemma_run_keys(a, b, c);
        assert(a == x);
        assert(run_partners(x) == (b, c));
    } else {
        assert(a == x && b == x && c == x);
    }
    assert(l.to_multiset().count(l[j]) > 0) by {
        assert(l.contains(l[j]));
    }
    assert(l.remove(j).to_multiset().insert(l[j]) =~= l.to_multiset());
    j
}

} // verus!
