//! The actions a seat may submit in the current phase.

use vstd::prelude::*;

use crate::action::{Action, KanIntent};
use crate::game::{AbortiveDrawKind, AbortiveTrigger};
use crate::hand::{Hand, hand_sizes_ok, remove_first};
use crate::rules::RulesRegistry;
use crate::rules::standard::abortive::abortive_of;
use crate::rules::standard::win::tenpai_with;
use crate::rules::traits::RulesProfile;
use crate::state::calls::{
    kakan_allowed, can_open_kan, can_pon, chi_actions, chi_windows, closed_kan_options, kakan_indices_upto,
    kakan_options, kamicha, kan_faces_upto, next_seat_of, same_face,
};
use crate::state::hand_state::{HandPhase, HandState};
use crate::state::reaction::ReactionKind;
use crate::state::claims::{call_valid, chi_call_ok};
use crate::state::turn::{reaction_accepted, turn_accepts};
use crate::state::wins::{riichi_allowed, ron_allowed, tsumo_allowed};
use crate::wall::kan_room;
use crate::tile::{Suit, Tile, numbered_tile, tile_rank, tile_suit};
use crate::hand::{any_match, chi_shape};
use crate::state::calls::{chi_hand_tiles, chi_window, first_of_face, lemma_same_face_members};

verus! {

/// The tiles among the first `n` of `c` whose discard leaves the hand tenpai, in hand order.
pub open spec fn riichi_discards_upto(c: Seq<Tile>, melds: nat, n: int) -> Seq<Tile>
    decreases n,
{
    if n <= 0 {
        Seq::empty()
    } else if tenpai_with(remove_first(c, c[n - 1]), melds) {
        riichi_discards_upto(c, melds, n - 1).push(c[n - 1])
    } else {
        riichi_discards_upto(c, melds, n - 1)
    }
}

/// What the current actor may do in its discard phase: the nine-terminals abort, tsumo,
/// riichi with each tile that keeps tenpai, a discard of each tile, each closed kan and each
/// added kan.
pub open spec fn discard_phase_actions(s: HandState, seat: int) -> Seq<Action> {
    let h = s.hands@[seat];
    let c = h.concealed@;
    (if seat == s.dealer && s.is_dealer_first_turn && abortive_of(s, s.config, AbortiveTrigger::DealerFirstTurn)
        == Some(AbortiveDrawKind::NineTerminals) {
        seq![Action::AbortiveNineTerminals]
    } else {
        Seq::empty()
    }) + (if tsumo_allowed(s, seat) {
        seq![Action::Tsumo]
    } else {
        Seq::empty()
    }) + (if riichi_allowed(s, seat) {
        riichi_discards_upto(c, h.melds@.len(), c.len() as int).map_values(|t: Tile| Action::Riichi { discard: t })
    } else {
        Seq::empty()
    }) + c.map_values(|t: Tile| Action::Discard(t)) + kan_faces_upto(c, c.len() as int).map_values(
        |t: Tile| Action::Kan(KanIntent::Closed { tile: t }),
    ) + kakan_indices_upto(h, h.melds@.len() as int).map_values(
        |i: usize| Action::Kan(KanIntent::Added { meld_index: i }),
    )
}

/// The first answers offered to an owing seat: pass, then ron when it can.
pub open spec fn reaction_base(s: HandState, seat: int) -> Seq<Action> {
    seq![Action::Pass] + if ron_allowed(s, seat) {
        seq![Action::Ron]
    } else {
        Seq::empty()
    }
}

/// The chi runs offered on a discard to the seat after the discarder.
pub open spec fn reaction_chis(s: HandState, seat: int) -> Seq<Seq<Tile>> {
    let r = s.reaction->0;
    if r.kind == ReactionKind::Discard && seat == next_seat_of(r.discarder as int) {
        chi_windows(s.hands@[seat].concealed@, r.tile)
    } else {
        Seq::empty()
    }
}

/// The pon and open kan offered on a discard, as the seat's hand allows.
pub open spec fn reaction_tail(s: HandState, seat: int) -> Seq<Action> {
    let r = s.reaction->0;
    let c = s.hands@[seat].concealed@;
    let calls = r.kind == ReactionKind::Discard;
    (if calls && same_face(c, r.tile).len() >= 2 {
        seq![Action::Pon]
    } else {
        Seq::empty()
    }) + (if calls && same_face(c, r.tile).len() >= 3 {
        seq![Action::Kan(KanIntent::Open)]
    } else {
        Seq::empty()
    })
}

/// `v` lists what `seat` may answer to the open window: pass, ron when it can, then (on a
/// discard) its chi runs when it sits next to the discarder, pon and open kan.
pub open spec fn reaction_actions_ok(s: HandState, seat: int, v: Seq<Action>) -> bool {
    if !(s.reaction matches Some(r) && seat != r.discarder && r.responses@[seat] is None) {
        v.len() == 0
    } else {
        let base = reaction_base(s, seat);
        let chis = reaction_chis(s, seat);
        let tail = reaction_tail(s, seat);
        &&& v.len() == base.len() + chis.len() + tail.len()
        &&& v.take(base.len() as int) == base
        &&& forall|i: int| 0 <= i < chis.len() ==> (#[trigger] v[reaction_base(s, seat).len() + i] matches Action::Chi { tiles }
            && tiles@ == chis[i])
        &&& v.skip((base.len() + chis.len()) as int) == tail
    }
}

/// Every tile listed by `riichi_discards_upto` is held and leaves the hand tenpai.
proof fn lemma_riichi_discards_listed(c: Seq<Tile>, melds: nat, n: int)
    requires
        0 <= n <= c.len(),
    ensures
        forall|k: int| 0 <= k < riichi_discards_upto(c, melds, n).len() ==> c.contains(
            #[trigger] riichi_discards_upto(c, melds, n)[k],
        ) && tenpai_with(remove_first(c, riichi_discards_upto(c, melds, n)[k]), melds),
    decreases n,
{
    if n > 0 {
        lemma_riichi_discards_listed(c, melds, n - 1);
        let prev = riichi_discards_upto(c, melds, n - 1);
        assert(c[n - 1] == c[n - 1]);
        assert(c.contains(c[n - 1]));
        assert forall|k: int| 0 <= k < riichi_discards_upto(c, melds, n).len() implies c.contains(
            #[trigger] riichi_discards_upto(c, melds, n)[k],
        ) && tenpai_with(remove_first(c, riichi_discards_upto(c, melds, n)[k]), melds) by {
            if k < prev.len() {
                assert(riichi_discards_upto(c, melds, n)[k] == prev[k]);
            }
        }
    }
}

/// Every face listed by `kan_faces_upto` is held four times.
proof fn lemma_kan_faces_listed(c: Seq<Tile>, n: int)
    requires
        0 <= n <= c.len(),
    ensures
        forall|k: int| 0 <= k < kan_faces_upto(c, n).len() ==> same_face(c, #[trigger] kan_faces_upto(c, n)[k]).len() >= 4,
    decreases n,
{
    if n > 0 {
        lemma_kan_faces_listed(c, n - 1);
        let prev = kan_faces_upto(c, n - 1);
        assert forall|k: int| 0 <= k < kan_faces_upto(c, n).len() implies same_face(
            c,
            #[trigger] kan_faces_upto(c, n)[k],
        ).len() >= 4 by {
            if k < prev.len() {
                assert(kan_faces_upto(c, n)[k] == prev[k]);
            }
        }
    }
}

/// Every index listed by `kakan_indices_upto` names a pon that can be upgraded.
proof fn lemma_kakan_indices_listed(h: Hand, n: int)
    requires
        0 <= n <= h.melds@.len(),
    ensures
        forall|k: int| 0 <= k < kakan_indices_upto(h, n).len() ==> kakan_allowed(h, #[trigger] kakan_indices_upto(h, n)[k] as int),
    decreases n,
{
    if n > 0 {
        lemma_kakan_indices_listed(h, n - 1);
        let prev = kakan_indices_upto(h, n - 1);
        assert forall|k: int| 0 <= k < kakan_indices_upto(h, n).len() implies kakan_allowed(
            h,
            #[trigger] kakan_indices_upto(h, n)[k] as int,
        ) by {
            if k < prev.len() {
                assert(kakan_indices_upto(h, n)[k] == prev[k]);
            } else {
                assert(h.melds.len() == h.melds@.len());
                assert(kakan_indices_upto(h, n)[k] == (n - 1) as usize);
            }
        }
    }
}

/// A tile whose discard keeps the hand tenpai is listed once its position is passed.
proof fn lemma_riichi_discard_listed(c: Seq<Tile>, melds: nat, j: int, n: int)
    requires
        0 <= j < n <= c.len(),
        tenpai_with(remove_first(c, c[j]), melds),
    ensures
        riichi_discards_upto(c, melds, n).contains(c[j]),
    decreases n,
{
    if n == j + 1 {
        assert(riichi_discards_upto(c, melds, n).last() == c[j]);
    } else {
        lemma_riichi_discard_listed(c, melds, j, n - 1);
        let prev = riichi_discards_upto(c, melds, n - 1);
        let k = choose|k: int| 0 <= k < prev.len() && prev[k] == c[j];
        assert(riichi_discards_upto(c, melds, n)[k] == c[j]);
    }
}

/// Tiles of one face show the same face.
proof fn lemma_same_face_by_kind(s: Seq<Tile>, a: Tile, b: Tile)
    requires
        a.kind == b.kind,
    ensures
        same_face(s, a) == same_face(s, b),
    decreases s.len(),
{
    if s.len() > 0 {
        lemma_same_face_by_kind(s.drop_last(), a, b);
    }
}

/// A face that occurs among the first `n` tiles has a first tile there.
proof fn lemma_first_of_face_exists(s: Seq<Tile>, t: Tile, n: int) -> (j: int)
    requires
        0 <= n <= s.len(),
        exists|k: int| 0 <= k < n && (#[trigger] s[k]).kind == t.kind,
    ensures
        0 <= j < n,
        s[j].kind == t.kind,
        first_of_face(s, j),
    decreases n,
{
    if exists|k: int| 0 <= k < n - 1 && (#[trigger] s[k]).kind == t.kind {
        lemma_first_of_face_exists(s, t, n - 1)
    } else {
        n - 1
    }
}

/// The first tile of a face held four times is listed once its position is passed.
proof fn lemma_kan_face_listed(c: Seq<Tile>, j: int, n: int)
    requires
        0 <= j < n <= c.len(),
        first_of_face(c, j),
        same_face(c, c[j]).len() >= 4,
    ensures
        kan_faces_upto(c, n).contains(c[j]),
    decreases n,
{
    if n == j + 1 {
        assert(kan_faces_upto(c, n).last() == c[j]);
    } else {
        lemma_kan_face_listed(c, j, n - 1);
        let prev = kan_faces_upto(c, n - 1);
        let k = choose|k: int| 0 <= k < prev.len() && prev[k] == c[j];
        assert(kan_faces_upto(c, n)[k] == c[j]);
    }
}

/// An upgradable pon is listed once its index is passed.
proof fn lemma_kakan_index_listed(h: Hand, i: int, n: int)
    requires
        0 <= i < n <= h.melds@.len(),
        kakan_allowed(h, i),
    ensures
        kakan_indices_upto(h, n).contains(i as usize),
    decreases n,
{
    assert(h.melds.len() == h.melds@.len());
    if n == i + 1 {
        assert(kakan_indices_upto(h, n).last() == i as usize);
    } else {
        lemma_kakan_index_listed(h, i, n - 1);
        let prev = kakan_indices_upto(h, n - 1);
        let k = choose|k: int| 0 <= k < prev.len() && prev[k] == i as usize;
        assert(kakan_indices_upto(h, n)[k] == i as usize);
    }
}

/// Every action `apply` accepts from the current actor in its discard phase is listed; a
/// closed kan is listed once per face, under the first tile of that face in hand.
pub proof fn lemma_accepted_turn_actions_listed(s: HandState, action: Action)
    requires
        s.wf(),
        s.phase == HandPhase::Discard,
        turn_accepts(s, s.current_actor as int, action),
    ensures
        action matches Action::Kan(KanIntent::Closed { tile }) ==> exists|k: int|
            0 <= k < discard_phase_actions(s, s.current_actor as int).len() && (#[trigger] discard_phase_actions(
                s,
                s.current_actor as int,
            )[k] matches Action::Kan(KanIntent::Closed { tile: t }) && t.kind == tile.kind),
        !(action matches Action::Kan(KanIntent::Closed { .. })) ==> discard_phase_actions(
            s,
            s.current_actor as int,
        ).contains(action),
{
    let seat = s.current_actor as int;
    let h = s.hands@[seat];
    let c = h.concealed@;
    let a0: Seq<Action> = if seat == s.dealer && s.is_dealer_first_turn && abortive_of(s, s.config, AbortiveTrigger::DealerFirstTurn)
        == Some(AbortiveDrawKind::NineTerminals) {
        seq![Action::AbortiveNineTerminals]
    } else {
        Seq::empty()
    };
    let a1: Seq<Action> = if tsumo_allowed(s, seat) {
        seq![Action::Tsumo]
    } else {
        Seq::empty()
    };
    let rd = riichi_discards_upto(c, h.melds@.len(), c.len() as int);
    let a2: Seq<Action> = if riichi_allowed(s, seat) {
        rd.map_values(|t: Tile| Action::Riichi { discard: t })
    } else {
        Seq::empty()
    };
    let a3 = c.map_values(|t: Tile| Action::Discard(t));
    let kf = kan_faces_upto(c, c.len() as int);
    let a4 = kf.map_values(|t: Tile| Action::Kan(KanIntent::Closed { tile: t }));
    let ki = kakan_indices_upto(h, h.melds@.len() as int);
    let a5 = ki.map_values(|k: usize| Action::Kan(KanIntent::Added { meld_index: k }));
    let all = discard_phase_actions(s, seat);
    assert(all == a0 + a1 + a2 + a3 + a4 + a5);
    let n0 = a0.len() as int;
    let n1 = n0 + a1.len();
    let n2 = n1 + a2.len();
    let n3 = n2 + a3.len();
    let n4 = n3 + a4.len();
    match action {
        Action::AbortiveNineTerminals => {
            assert(all[0] == action);
        },
        Action::Tsumo => {
            assert(all[n0] == action);
        },
        Action::Riichi { discard } => {
            let j = choose|j: int| 0 <= j < c.len() && c[j] == discard;
            lemma_riichi_discard_listed(c, h.melds@.len(), j, c.len() as int);
            let k = choose|k: int| 0 <= k < rd.len() && rd[k] == discard;
            assert(all[n1 + k] == action);
        },
        Action::Discard(t) => {
            let j = choose|j: int| 0 <= j < c.len() && c[j] == t;
            assert(all[n2 + j] == action);
        },
        Action::Kan(KanIntent::Closed { tile }) => {
            lemma_same_face_members(c, tile);
            let m = same_face(c, tile)[0];
            let k0 = choose|k0: int| 0 <= k0 < c.len() && c[k0] == m;
            assert(c[k0].kind == tile.kind);
            let j = lemma_first_of_face_exists(c, tile, c.len() as int);
            lemma_same_face_by_kind(c, c[j], tile);
            lemma_kan_face_listed(c, j, c.len() as int);
            let k = choose|k: int| 0 <= k < kf.len() && kf[k] == c[j];
            assert(all[n3 + k] == Action::Kan(KanIntent::Closed { tile: c[j] }));
        },
        Action::Kan(KanIntent::Added { meld_index }) => {
            lemma_kakan_index_listed(h, meld_index as int, h.melds@.len() as int);
            let k = choose|k: int| 0 <= k < ki.len() && ki[k] == meld_index;
            assert(all[n4 + k] == action);
        },
        _ => {},
    }
}

/// Every action listed for the current actor in its discard phase is one `apply` accepts;
/// a listed closed kan only when the seat has fewer than four melds and the dead wall still
/// has a replacement tile and a dora indicator to give.
pub proof fn lemma_listed_turn_actions_accepted(s: HandState, i: int)
    requires
        s.wf(),
        s.phase == HandPhase::Discard,
        0 <= i < discard_phase_actions(s, s.current_actor as int).len(),
        discard_phase_actions(s, s.current_actor as int)[i] matches Action::Kan(KanIntent::Closed { .. }) ==> {
            &&& s.hands@[s.current_actor as int].melds@.len() < 4
            &&& kan_room(s.wall)
        },
    ensures
        turn_accepts(s, s.current_actor as int, discard_phase_actions(s, s.current_actor as int)[i]),
{
    let seat = s.current_actor as int;
    let h = s.hands@[seat];
    let c = h.concealed@;
    let a0: Seq<Action> = if seat == s.dealer && s.is_dealer_first_turn && abortive_of(s, s.config, AbortiveTrigger::DealerFirstTurn)
        == Some(AbortiveDrawKind::NineTerminals) {
        seq![Action::AbortiveNineTerminals]
    } else {
        Seq::empty()
    };
    let a1: Seq<Action> = if tsumo_allowed(s, seat) {
        seq![Action::Tsumo]
    } else {
        Seq::empty()
    };
    let rd = riichi_discards_upto(c, h.melds@.len(), c.len() as int);
    let a2: Seq<Action> = if riichi_allowed(s, seat) {
        rd.map_values(|t: Tile| Action::Riichi { discard: t })
    } else {
        Seq::empty()
    };
    let a3 = c.map_values(|t: Tile| Action::Discard(t));
    let kf = kan_faces_upto(c, c.len() as int);
    let a4 = kf.map_values(|t: Tile| Action::Kan(KanIntent::Closed { tile: t }));
    let ki = kakan_indices_upto(h, h.melds@.len() as int);
    let a5 = ki.map_values(|k: usize| Action::Kan(KanIntent::Added { meld_index: k }));
    let all = discard_phase_actions(s, seat);
    assert(all == a0 + a1 + a2 + a3 + a4 + a5);
    let n0 = a0.len() as int;
    let n1 = n0 + a1.len();
    let n2 = n1 + a2.len();
    let n3 = n2 + a3.len();
    let n4 = n3 + a4.len();
    if i < n0 {
        assert(all[i] == a0[i]);
    } else if i < n1 {
        assert(all[i] == a1[i - n0]);
    } else if i < n2 {
        assert(all[i] == a2[i - n1]);
        lemma_riichi_discards_listed(c, h.melds@.len(), c.len() as int);
        assert(rd[i - n1] == rd[i - n1]);
        assert(h.melds@.len() == 0);
    } else if i < n3 {
        assert(all[i] == a3[i - n2]);
        assert(c.contains(c[i - n2]));
    } else if i < n4 {
        assert(all[i] == a4[i - n3]);
        lemma_kan_faces_listed(c, c.len() as int);
        assert(kf[i - n3] == kf[i - n3]);
    } else {
        assert(all[i] == a5[i - n4]);
        lemma_kakan_indices_listed(h, h.melds@.len() as int);
        assert(ki[i - n4] == ki[i - n4]);
    }
}

/// A run offered for a chi on `called` is a call the seat can make.
proof fn lemma_chi_window_callable(c: Seq<Tile>, called: Tile, suit: Suit, low: int)
    requires
        tile_suit(called) == Some(suit),
        tile_rank(called) matches Some(r) && low <= r <= low + 2,
        1 <= low,
        low + 2 <= 9,
        chi_window(c, called, suit, low) is Some,
    ensures
        chi_call_ok(c, called, chi_window(c, called, suit, low)->0),
{
    let r = tile_rank(called)->0 as int;
    let w = Seq::new(3, |k: int| numbered_tile(suit, (low + k) as u8));
    let x = chi_window(c, called, suit, low)->0;
    assert(x == Seq::new(3, |k: int| if w[k].kind == called.kind { called } else { w[k] }));
    assert forall|k: int| 0 <= k < 3 implies (#[trigger] w[k]).kind == called.kind <==> low + k == r by {
        match suit {
            Suit::Man => {},
            Suit::Pin => {},
            Suit::Sou => {},
        }
    }
    assert forall|k: int| 0 <= k < 3 implies tile_suit(#[trigger] x[k]) == Some(suit) && tile_rank(x[k]) == Some(
        (low + k) as u8,
    ) by {
        match suit {
            Suit::Man => {},
            Suit::Pin => {},
            Suit::Sou => {},
        }
    }
    assert(chi_shape(x));
    let m = r - low;
    assert(x[m] == called);
    assert(any_match(x, called));
    assert(chi_hand_tiles(x, called).len() == 2) by {
        reveal_with_fuel(Seq::filter, 4);
        assert(x.drop_last().drop_last().drop_last() =~= Seq::<Tile>::empty());
        assert(x.drop_last().drop_last().last() == x[0]);
        assert(x.drop_last().last() == x[1]);
        assert(x.last() == x[2]);
    }
}

/// Every answer listed for a seat that owes one to the open window is one `apply` accepts.
pub proof fn lemma_listed_reaction_actions_accepted(s: HandState, seat: int, v: Seq<Action>, j: int)
    requires
        s.wf(),
        0 <= seat < 4,
        reaction_actions_ok(s, seat, v),
        0 <= j < v.len(),
    ensures
        reaction_accepted(s, seat, v[j]),
{
    let r = s.reaction->0;
    let c = s.hands@[seat].concealed@;
    let base = reaction_base(s, seat);
    let chis = reaction_chis(s, seat);
    let tail = reaction_tail(s, seat);
    let nb = base.len() as int;
    let nc = nb + chis.len();
    if j < nb {
        assert(v[j] == v.take(nb)[j]);
    } else if j < nc {
        let i = j - nb;
        assert(v[reaction_base(s, seat).len() + i] matches Action::Chi { tiles } && tiles@ == chis[i]);
        assert(v[j] == v[reaction_base(s, seat).len() + i]);
        let (suit, rank) = (tile_suit(r.tile)->0, tile_rank(r.tile)->0);
        let rk = rank as int;
        let opt = |low: int|
            if 1 <= low && low + 2 <= 9 {
                chi_window(c, r.tile, suit, low)
            } else {
                None
            };
        let a = opt(rk - 2);
        let b = opt(rk - 1);
        let d = opt(rk);
        let sa: Seq<Seq<Tile>> = if a is Some { seq![a->0] } else { Seq::empty() };
        let sb: Seq<Seq<Tile>> = if b is Some { seq![b->0] } else { Seq::empty() };
        let sd: Seq<Seq<Tile>> = if d is Some { seq![d->0] } else { Seq::empty() };
        assert(chis == sa + sb + sd);
        if i < sa.len() {
            lemma_chi_window_callable(c, r.tile, suit, rk - 2);
        } else if i < sa.len() + sb.len() {
            lemma_chi_window_callable(c, r.tile, suit, rk - 1);
        } else {
            lemma_chi_window_callable(c, r.tile, suit, rk);
        }
        assert(call_valid(s, seat, v[j]));
    } else {
        assert(v[j] == v.skip(nc)[j - nc]);
    }
}

/// Appends `Discard(t)` for each tile of `tiles`.
fn push_discards(v: &mut Vec<Action>, tiles: &[Tile])
    ensures
        final(v)@ == old(v)@ + tiles@.map_values(|t: Tile| Action::Discard(t)),
{
    let ghost start = v@;
    let mut i: usize = 0;
    while i < tiles.len()
        invariant
            i <= tiles@.len(),
            v@ == start + tiles@.take(i as int).map_values(|t: Tile| Action::Discard(t)),
        decreases tiles@.len() - i,
    {
        v.push(Action::Discard(tiles[i]));
        i = i + 1;
        assert(tiles@.take(i as int).map_values(|t: Tile| Action::Discard(t)) =~= tiles@.take(i - 1).map_values(
            |t: Tile| Action::Discard(t),
        ).push(Action::Discard(tiles@[i - 1])));
    }
    assert(tiles@.take(tiles@.len() as int) =~= tiles@);
}

/// Appends `Kan(Closed { tile })` for each tile of `tiles`.
fn push_closed_kans(v: &mut Vec<Action>, tiles: &[Tile])
    ensures
        final(v)@ == old(v)@ + tiles@.map_values(|t: Tile| Action::Kan(KanIntent::Closed { tile: t })),
{
    let ghost start = v@;
    let mut i: usize = 0;
    while i < tiles.len()
        invariant
            i <= tiles@.len(),
            v@ == start + tiles@.take(i as int).map_values(|t: Tile| Action::Kan(KanIntent::Closed { tile: t })),
        decreases tiles@.len() - i,
    {
        v.push(Action::Kan(KanIntent::Closed { tile: tiles[i] }));
        i = i + 1;
        assert(tiles@.take(i as int).map_values(|t: Tile| Action::Kan(KanIntent::Closed { tile: t })) =~= tiles@.take(
            i - 1,
        ).map_values(|t: Tile| Action::Kan(KanIntent::Closed { tile: t })).push(
            Action::Kan(KanIntent::Closed { tile: tiles@[i - 1] }),
        ));
    }
    assert(tiles@.take(tiles@.len() as int) =~= tiles@);
}

/// Appends `Kan(Added { meld_index })` for each index of `indices`.
fn push_added_kans(v: &mut Vec<Action>, indices: &[usize])
    ensures
        final(v)@ == old(v)@ + indices@.map_values(|i: usize| Action::Kan(KanIntent::Added { meld_index: i })),
{
    let ghost start = v@;
    let mut i: usize = 0;
    while i < indices.len()
        invariant
            i <= indices@.len(),
            v@ == start + indices@.take(i as int).map_values(|k: usize| Action::Kan(KanIntent::Added { meld_index: k })),
        decreases indices@.len() - i,
    {
        v.push(Action::Kan(KanIntent::Added { meld_index: indices[i] }));
        i = i + 1;
        assert(indices@.take(i as int).map_values(|k: usize| Action::Kan(KanIntent::Added { meld_index: k })) =~= indices@.take(
            i - 1,
        ).map_values(|k: usize| Action::Kan(KanIntent::Added { meld_index: k })).push(
            Action::Kan(KanIntent::Added { meld_index: indices@[i - 1] }),
        ));
    }
    assert(indices@.take(indices@.len() as int) =~= indices@);
}

impl HandState {
    /// Appends a riichi action for each concealed tile whose discard keeps the hand tenpai.
    fn push_riichi_discards(&self, seat: usize, v: &mut Vec<Action>)
        requires
            self.wf(),
            seat < 4,
        ensures
            final(v)@ == old(v)@ + riichi_discards_upto(
                self.hands@[seat as int].concealed@,
                self.hands@[seat as int].melds@.len(),
                self.hands@[seat as int].concealed@.len() as int,
            ).map_values(|t: Tile| Action::Riichi { discard: t }),
    {
        let ghost start = v@;
        let hand = &self.hands[seat];
        let ghost c = hand.concealed@;
        let ghost m = hand.melds@.len();
        let rules = RulesRegistry::get(self.config.profile);
        let tiles = hand.concealed.tiles();
        proof {
            assert(hand_sizes_ok(self.hands@[seat as int]));
        }
        let mut i: usize = 0;
        while i < tiles.len()
            invariant
                i <= tiles@.len(),
                tiles@ == c,
                *hand == self.hands@[seat as int],
                c == hand.concealed@,
                m == hand.melds@.len(),
                hand_sizes_ok(*hand),
                rules is Ok,
                v@ == start + riichi_discards_upto(c, m, i as int).map_values(|t: Tile| Action::Riichi { discard: t }),
            decreases tiles@.len() - i,
        {
            let t = tiles[i];
            let ok = match &rules {
                Ok(p) => p.is_riichi_discard(hand, t, &self.config),
                Err(_) => false,
            };
            proof {
                assert(c.contains(t)) by {
                    assert(c[i as int] == t);
                }
            }
            let ghost before = riichi_discards_upto(c, m, i as int);
            if ok {
                v.push(Action::Riichi { discard: t });
                proof {
                    assert(riichi_discards_upto(c, m, i + 1) == before.push(t));
                    assert(before.push(t).map_values(|x: Tile| Action::Riichi { discard: x }) =~= before.map_values(
                        |x: Tile| Action::Riichi { discard: x },
                    ).push(Action::Riichi { discard: t }));
                }
            }
            i = i + 1;
        }
    }

    /// The actions `seat` may submit now.
    pub fn legal_actions_for(&self, seat: usize) -> (v: Vec<Action>)
        requires
            self.wf(),
            self.phase == HandPhase::Reaction ==> seat < 4,
        ensures
            self.phase == HandPhase::Draw && seat == self.current_actor ==> v@ == seq![Action::Draw],
            self.phase == HandPhase::Discard && seat == self.current_actor ==> v@ == discard_phase_actions(*self, seat as int),
            self.phase == HandPhase::Reaction ==> reaction_actions_ok(*self, seat as int, v@),
            self.phase == HandPhase::Ended || ((self.phase == HandPhase::Draw || self.phase == HandPhase::Discard)
                && seat != self.current_actor) ==> v@.len() == 0,
    {
        match self.phase {
            HandPhase::Draw => {
                let mut v: Vec<Action> = Vec::new();
                if seat == self.current_actor {
                    v.push(Action::Draw);
                }
                v
            },
            HandPhase::Discard => {
                let mut v: Vec<Action> = Vec::new();
                if seat != self.current_actor {
                    return v;
                }
                if self.can_abort_nine_terminals(seat) {
                    v.push(Action::AbortiveNineTerminals);
                }
                if self.can_tsumo(seat) {
                    v.push(Action::Tsumo);
                }
                if self.can_declare_riichi(seat) {
                    self.push_riichi_discards(seat, &mut v);
                }
                push_discards(&mut v, self.hands[seat].concealed.tiles());
                let kans = closed_kan_options(&self.hands[seat].concealed);
                push_closed_kans(&mut v, kans.as_slice());
                let added = kakan_options(&self.hands[seat]);
                push_added_kans(&mut v, added.as_slice());
                proof {
                    let s = *self;
                    let sq = seat as int;
                    assert(v@ =~= discard_phase_actions(s, sq));
                }
                v
            },
            HandPhase::Reaction => self.legal_reaction_actions(seat),
            HandPhase::Ended => Vec::new(),
        }
    }

    /// The answers `seat` may give to the open window.
    fn legal_reaction_actions(&self, seat: usize) -> (v: Vec<Action>)
        requires
            self.wf(),
            seat < 4,
        ensures
            reaction_actions_ok(*self, seat as int, v@),
    {
        let mut v: Vec<Action> = Vec::new();
        let reaction = match self.reaction {
            Some(r) => r,
            None => {
                return v;
            },
        };
        if !reaction.can_respond(seat) {
            return v;
        }
        v.push(Action::Pass);
        if self.can_ron(seat) {
            v.push(Action::Ron);
        }
        let ghost base = v@;
        proof {
            assert(base =~= seq![Action::Pass] + if ron_allowed(*self, seat as int) {
                seq![Action::Ron]
            } else {
                Seq::empty()
            });
        }
        if reaction.kind == ReactionKind::Kakan {
            proof {
                assert(v@.take(base.len() as int) =~= base);
                assert(v@.skip(base.len() as int) =~= Seq::<Action>::empty());
            }
            return v;
        }
        let concealed = &self.hands[seat].concealed;
        let called = reaction.tile;
        let ghost chis: Seq<Seq<Tile>> = if seat == next_seat_of(reaction.discarder as int) {
            chi_windows(concealed@, called)
        } else {
            Seq::empty()
        };
        if seat == kamicha(reaction.discarder) {
            let chi = chi_actions(concealed, called);
            let mut i: usize = 0;
            while i < chi.len()
                invariant
                    i <= chi@.len(),
                    chi@.len() == chis.len(),
                    forall|k: int| 0 <= k < chi@.len() ==> (#[trigger] chi@[k] matches Action::Chi { tiles } && tiles@ == chis[k]),
                    v@.len() == base.len() + i,
                    v@.take(base.len() as int) == base,
                    forall|k: int| 0 <= k < i ==> #[trigger] v@[base.len() + k] == chi@[k],
                decreases chi@.len() - i,
            {
                let ghost prev = v@;
                v.push(chi[i]);
                proof {
                    assert(v@.take(base.len() as int) =~= prev.take(base.len() as int));
                    assert forall|k: int| 0 <= k < i + 1 implies #[trigger] v@[base.len() + k] == chi@[k] by {
                        if k < i {
                            assert(v@[base.len() + k] == prev[base.len() + k]);
                        }
                    }
                }
                i = i + 1;
            }
        }
        let ghost mid = v@;
        if can_pon(concealed, called) {
            v.push(Action::Pon);
        }
        if can_open_kan(concealed, called) {
            v.push(Action::Kan(KanIntent::Open));
        }
        proof {
            assert(v@.take(base.len() as int) =~= base) by {
                assert(v@.take(mid.len() as int) =~= mid);
                assert(mid.take(base.len() as int) == base);
            }
            assert forall|i: int| 0 <= i < chis.len() implies (#[trigger] v@[base.len() + i] matches Action::Chi { tiles } && tiles@ == chis[i]) by {
                assert(v@[base.len() + i] == mid[base.len() + i]);
            }
            let tail = (if same_face(concealed@, called).len() >= 2 {
                seq![Action::Pon]
            } else {
                Seq::empty()
            }) + (if same_face(concealed@, called).len() >= 3 {
                seq![Action::Kan(KanIntent::Open)]
            } else {
                Seq::empty()
            });
            assert(v@.skip((base.len() + chis.len()) as int) =~= tail);
        }
        v
    }

    /// The actions the current actor may submit now.
    pub fn legal_actions(&self) -> (v: Vec<Action>)
        requires
            self.wf(),
        ensures
            self.phase == HandPhase::Draw ==> v@ == seq![Action::Draw],
            self.phase == HandPhase::Discard ==> v@ == discard_phase_actions(*self, self.current_actor as int),
            self.phase == HandPhase::Reaction ==> reaction_actions_ok(*self, self.current_actor as int, v@),
            self.phase == HandPhase::Ended ==> v@.len() == 0,
    {
        self.legal_actions_for(self.current_actor)
    }
}

} // verus!
