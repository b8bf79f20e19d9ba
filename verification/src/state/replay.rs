//! Replaying recorded events onto a hand in progress.

use vstd::prelude::*;

use crate::error::Error;
use crate::event::Event;
use crate::wall::kan_room;
use crate::hand::{
    Hand, Meld, MeldKind, all_match, any_match, chi_shape, copy_tiles, find_tile, hand_sizes_ok, hand_total,
    lemma_remove_first_absent, lemma_remove_first_at, lemma_remove_first_multiset, remove_first,
};
use crate::state::claims::lemma_meld_count_push;
use crate::state::hand_state::{HandEndReason, HandPhase, HandState, kakan_window_ok};
use crate::state::play::{discarded, drew, lemma_hands_total_update};
use crate::state::reaction::{ReactionKind, ReactionState};
use crate::tile::{Tile, sorted};
use vstd::multiset::Multiset;

verus! {

broadcast use {vstd::seq_lib::group_to_multiset_ensures, vstd::multiset::group_multiset_axioms};

/// `a` and `b` lay out the same table: each seat holds the same concealed tiles (in any
/// order) and the same melds, the rivers match, and so does the live wall.
pub open spec fn same_table(a: HandState, b: HandState) -> bool {
    &&& forall|i: int|
        0 <= i < 4 ==> (#[trigger] a.hands@[i]).concealed@.to_multiset() == b.hands@[i].concealed@.to_multiset()
            && a.hands@[i].melds@ == b.hands@[i].melds@
    &&& forall|i: int| 0 <= i < 4 ==> (#[trigger] a.discards@[i])@ == b.discards@[i]@
    &&& a.wall.live_seq() == b.wall.live_seq()
}

/// What replay reproduces of a hand: each seat's concealed tiles (in any order), melds and
/// river, then the live wall.
pub type TableView = (Seq<Multiset<Tile>>, Seq<Seq<Meld>>, Seq<Seq<Tile>>, Seq<Tile>);

/// The table of a hand state.
pub open spec fn table_of(s: HandState) -> TableView {
    (
        Seq::new(4, |i: int| s.hands@[i].concealed@.to_multiset()),
        Seq::new(4, |i: int| s.hands@[i].melds@),
        Seq::new(4, |i: int| s.discards@[i]@),
        s.wall.live_seq(),
    )
}

/// Events whose effect on the table the model follows: all but calls and kans.
pub open spec fn table_event(e: Event) -> bool {
    match e {
        Event::Called { .. } => false,
        Event::DoraRevealed { .. } => false,
        Event::RinshanDrawn { .. } => false,
        Event::KakanDeclared { .. } => false,
        _ => true,
    }
}

/// The table after `e`: a draw moves the first live tile into a hand, a discard moves a tile
/// from a hand to its river, every other modelled event leaves the table as it is.
pub open spec fn table_after(t: TableView, e: Event) -> TableView {
    match e {
        Event::Drawn { seat, tile } => (
            t.0.update(seat as int, t.0[seat as int].insert(tile)),
            t.1,
            t.2,
            if t.3.len() > 0 {
                t.3.drop_first()
            } else {
                t.3
            },
        ),
        Event::Discarded { seat, tile } => (
            t.0.update(seat as int, t.0[seat as int].remove(tile)),
            t.1,
            t.2.update(seat as int, t.2[seat as int].push(tile)),
            t.3,
        ),
        _ => t,
    }
}

/// The table after the events of `evs`, in order.
pub open spec fn replay_table(t: TableView, evs: Seq<Event>) -> TableView
    decreases evs.len(),
{
    if evs.len() == 0 {
        t
    } else {
        table_after(replay_table(t, evs.drop_last()), evs.last())
    }
}

/// States with the same hands, rivers and live wall lay out the same table.
pub proof fn lemma_table_unchanged(a: HandState, b: HandState)
    requires
        a.hands == b.hands,
        a.discards == b.discards,
        a.wall.live_seq() == b.wall.live_seq(),
    ensures
        table_of(a) == table_of(b),
{
    assert(table_of(a).0 =~= table_of(b).0);
    assert(table_of(a).1 =~= table_of(b).1);
    assert(table_of(a).2 =~= table_of(b).2);
}

/// States laid out as the same table hold as many concealed tiles per seat and the same
/// live wall.
pub proof fn lemma_table_lens(a: HandState, b: HandState)
    requires
        table_of(a) == table_of(b),
    ensures
        forall|i: int| 0 <= i < 4 ==> #[trigger] a.hands@[i].concealed@.len() == b.hands@[i].concealed@.len(),
        a.wall.live_seq() == b.wall.live_seq(),
{
    assert forall|i: int| 0 <= i < 4 implies #[trigger] a.hands@[i].concealed@.len() == b.hands@[i].concealed@.len() by {
        assert(table_of(a).0[i] == table_of(b).0[i]);
        a.hands@[i].concealed@.to_multiset_ensures();
        b.hands@[i].concealed@.to_multiset_ensures();
    }
}

/// A replayed draw moves the drawn tile into the table model as `table_after` does.
pub proof fn lemma_table_draw(a: HandState, seat: usize, tile: Tile, b: HandState)
    requires
        seat < 4,
        draw_replayed(a, seat, tile, b),
    ensures
        table_of(b) == table_after(table_of(a), Event::Drawn { seat, tile }),
{
    let t = table_of(a);
    let u = table_after(t, Event::Drawn { seat, tile });
    assert forall|i: int| 0 <= i < 4 implies #[trigger] table_of(b).0[i] == u.0[i] by {
        if i != seat {
            assert(b.hands@[i] == a.hands@[i]);
        }
    }
    assert(table_of(b).0 =~= u.0);
    assert forall|i: int| 0 <= i < 4 implies #[trigger] table_of(b).1[i] == u.1[i] by {
        if i != seat {
            assert(b.hands@[i] == a.hands@[i]);
        }
    }
    assert(table_of(b).1 =~= u.1);
    assert(table_of(b).2 =~= u.2);
}

/// A replayed discard moves the tile into the river in the table model as `table_after` does.
pub proof fn lemma_table_discard(a: HandState, seat: usize, tile: Tile, b: HandState)
    requires
        seat < 4,
        a.hands@[seat as int].concealed@.contains(tile),
        discard_replayed(a, seat, tile, b),
    ensures
        table_of(b) == table_after(table_of(a), Event::Discarded { seat, tile }),
{
    let t = table_of(a);
    let u = table_after(t, Event::Discarded { seat, tile });
    lemma_remove_first_multiset(a.hands@[seat as int].concealed@, tile);
    assert forall|i: int| 0 <= i < 4 implies #[trigger] table_of(b).0[i] == u.0[i] by {
        if i != seat {
            assert(b.hands@[i] == a.hands@[i]);
        }
    }
    assert(table_of(b).0 =~= u.0);
    assert forall|i: int| 0 <= i < 4 implies #[trigger] table_of(b).1[i] == u.1[i] by {
        if i != seat {
            assert(b.hands@[i] == a.hands@[i]);
        }
    }
    assert(table_of(b).1 =~= u.1);
    assert forall|i: int| 0 <= i < 4 implies #[trigger] table_of(b).2[i] == u.2[i] by {
        if i != seat {
            assert(b.discards@[i] == a.discards@[i]);
        }
    }
    assert(table_of(b).2 =~= u.2);
}

/// How a modelled event moves the counters replay checks: a draw counts a live draw for its
/// seat, a riichi declaration takes its stick from the seat's score onto the table, score
/// changes add (wrapping) to the scores; the dealer never changes.
pub open spec fn counters_after(a: HandState, e: Event, b: HandState) -> bool {
    &&& b.dealer == a.dealer
    &&& b.live_draws@ == match e {
        Event::Drawn { seat, .. } => a.live_draws@.update(seat as int, (a.live_draws@[seat as int] + 1) as u8),
        _ => a.live_draws@,
    }
    &&& b.scores@ == match e {
        Event::RiichiDeclared { seat, .. } => a.scores@.update(seat as int, (a.scores@[seat as int] - 1000) as i32),
        Event::ScoresAdjusted { deltas } => Seq::new(
            4,
            |i: int| vstd::wrapping::i32_specs::wrapping_add(a.scores@[i], deltas@[i]),
        ),
        Event::ExhaustiveDraw { deltas } => Seq::new(
            4,
            |i: int| vstd::wrapping::i32_specs::wrapping_add(a.scores@[i], deltas@[i]),
        ),
        _ => a.scores@,
    }
    &&& b.table_riichi_sticks == match e {
        Event::RiichiDeclared { .. } => (a.table_riichi_sticks + 1) as u8,
        _ => a.table_riichi_sticks,
    }
}

/// What replay keeps of a hand: its table, the live draws per seat, the scores, the riichi
/// sticks on the table and the dealer.
pub type Ledger = (TableView, Seq<u8>, Seq<i32>, u8, usize);

/// The ledger of a hand state.
pub open spec fn ledger_of(s: HandState) -> Ledger {
    (table_of(s), s.live_draws@, s.scores@, s.table_riichi_sticks, s.dealer)
}

/// The ledger after the modelled event `e`.
pub open spec fn ledger_after(l: Ledger, e: Event) -> Ledger {
    (
        table_after(l.0, e),
        match e {
            Event::Drawn { seat, .. } => l.1.update(seat as int, (l.1[seat as int] + 1) as u8),
            _ => l.1,
        },
        match e {
            Event::RiichiDeclared { seat, .. } => l.2.update(seat as int, (l.2[seat as int] - 1000) as i32),
            Event::ScoresAdjusted { deltas } => Seq::new(
                4,
                |i: int| vstd::wrapping::i32_specs::wrapping_add(l.2[i], deltas@[i]),
            ),
            Event::ExhaustiveDraw { deltas } => Seq::new(
                4,
                |i: int| vstd::wrapping::i32_specs::wrapping_add(l.2[i], deltas@[i]),
            ),
            _ => l.2,
        },
        match e {
            Event::RiichiDeclared { .. } => (l.3 + 1) as u8,
            _ => l.3,
        },
        l.4,
    )
}

/// Whether replay takes the modelled event `e` on ledger `l`: a dealt event names the dealer,
/// a draw goes to a seat with room and a live-draw count under 255, a discard is of a tile
/// the seat holds, a riichi declaration finds the points and room for its stick.
pub open spec fn event_accepted(l: Ledger, e: Event) -> bool {
    match e {
        Event::Dealt { dealer } => l.4 == dealer,
        Event::Drawn { seat, .. } => seat < 4 && l.1[seat as int] < 255 && l.0.0[seat as int].len() < 136,
        Event::Discarded { seat, tile } => seat < 4 && l.0.0[seat as int].count(tile) > 0,
        Event::RiichiDeclared { seat, .. } => seat < 4 && l.2[seat as int] >= i32::MIN + 1000 && l.3 < 255,
        _ => true,
    }
}

/// The ledger after the events of `evs`, in order.
pub open spec fn ledger_replay(l: Ledger, evs: Seq<Event>) -> Ledger
    decreases evs.len(),
{
    if evs.len() == 0 {
        l
    } else {
        ledger_after(ledger_replay(l, evs.drop_last()), evs.last())
    }
}

/// Whether replay takes each of `evs` in turn, starting from ledger `l`.
pub open spec fn events_accepted(l: Ledger, evs: Seq<Event>) -> bool
    decreases evs.len(),
{
    if evs.len() == 0 {
        true
    } else {
        events_accepted(l, evs.drop_last()) && event_accepted(ledger_replay(l, evs.drop_last()), evs.last())
    }
}

/// Runs that replay take their prefixes too.
proof fn lemma_events_accepted_prefix(l: Ledger, evs: Seq<Event>, k: int)
    requires
        0 <= k <= evs.len(),
        events_accepted(l, evs),
    ensures
        events_accepted(l, evs.take(k)),
    decreases evs.len() - k,
{
    if k < evs.len() {
        assert(evs.drop_last().take(k) =~= evs.take(k));
        lemma_events_accepted_prefix(l, evs.drop_last(), k);
    } else {
        assert(evs.take(k) =~= evs);
    }
}

/// `ev` are modelled events that replay the table of `a` into that of `b`.
pub open spec fn replays_to(a: HandState, ev: Seq<Event>, b: HandState) -> bool {
    &&& forall|k: int| 0 <= k < ev.len() ==> table_event(#[trigger] ev[k])
    &&& replay_table(table_of(a), ev) == table_of(b)
}

/// Replaying two runs of events one after the other replays their concatenation.
pub proof fn lemma_replay_table_concat(t: TableView, e1: Seq<Event>, e2: Seq<Event>)
    ensures
        replay_table(t, e1 + e2) == replay_table(replay_table(t, e1), e2),
    decreases e2.len(),
{
    if e2.len() == 0 {
        assert(e1 + e2 =~= e1);
    } else {
        lemma_replay_table_concat(t, e1, e2.drop_last());
        assert((e1 + e2).drop_last() =~= e1 + e2.drop_last());
        assert((e1 + e2).last() == e2.last());
    }
}

/// Runs of events that replay `a` into `b` and `b` into `c` together replay `a` into `c`.
pub proof fn lemma_replays_concat(a: HandState, e1: Seq<Event>, b: HandState, e2: Seq<Event>, c: HandState)
    requires
        replays_to(a, e1, b),
        replays_to(b, e2, c),
    ensures
        replays_to(a, e1 + e2, c),
{
    lemma_replay_table_concat(table_of(a), e1, e2);
    assert forall|k: int| 0 <= k < (e1 + e2).len() implies table_event(#[trigger] (e1 + e2)[k]) by {
        if k < e1.len() {
            assert((e1 + e2)[k] == e1[k]);
        } else {
            assert((e1 + e2)[k] == e2[k - e1.len()]);
        }
    }
}

/// A state replays into itself with no events, and into any state with the same table by
/// events that leave the table as it is.
pub proof fn lemma_replays_unchanged(a: HandState, ev: Seq<Event>, b: HandState)
    requires
        a.hands == b.hands,
        a.discards == b.discards,
        a.wall.live_seq() == b.wall.live_seq(),
        forall|k: int| 0 <= k < ev.len() ==> table_event(#[trigger] ev[k]) && !(ev[k] is Drawn) && !(ev[k] is Discarded),
    ensures
        replays_to(a, ev, b),
    decreases ev.len(),
{
    lemma_table_unchanged(a, b);
    if ev.len() > 0 {
        lemma_replays_unchanged(a, ev.drop_last(), b);
        assert(table_event(ev.last()) && !(ev.last() is Drawn) && !(ev.last() is Discarded));
    }
}

/// A draw replays as the event it reports.
pub proof fn lemma_drew_replays(a: HandState, seat: usize, b: HandState)
    requires
        seat < 4,
        drew(a, seat, b),
    ensures
        replays_to(a, seq![Event::Drawn { seat, tile: a.wall.live_seq()[0] }], b),
{
    let e = Event::Drawn { seat, tile: a.wall.live_seq()[0] };
    assert(draw_replayed(a, seat, a.wall.live_seq()[0], b));
    lemma_table_draw(a, seat, a.wall.live_seq()[0], b);
    assert(seq![e].drop_last() =~= Seq::<Event>::empty());
    assert(replay_table(table_of(a), seq![e].drop_last()) == table_of(a));
    assert(seq![e].last() == e);
    assert(replay_table(table_of(a), seq![e]) == table_after(table_of(a), e));
    assert(table_event(seq![e][0]));
}

/// A discard replays as the event it reports.
pub proof fn lemma_discarded_replays(a: HandState, seat: usize, tile: Tile, b: HandState)
    requires
        seat < 4,
        discarded(a, seat, tile, b),
    ensures
        replays_to(a, seq![Event::Discarded { seat, tile }], b),
{
    let e = Event::Discarded { seat, tile };
    assert(discard_replayed(a, seat, tile, b));
    lemma_table_discard(a, seat, tile, b);
    assert(seq![e].drop_last() =~= Seq::<Event>::empty());
    assert(replay_table(table_of(a), seq![e].drop_last()) == table_of(a));
    assert(seq![e].last() == e);
    assert(replay_table(table_of(a), seq![e]) == table_after(table_of(a), e));
    assert(table_event(seq![e][0]));
}

/// Events that replay the table of `a` into that of `z` replay any state laid out as `a`
/// into the same table: so replaying with `apply_events` the events `play_out_discards`
/// returns, from a state laid out as the one it started from, reproduces the table it ended
/// with (when every event replays).
pub proof fn lemma_replay_reproduces_play(a: HandState, events: Seq<Event>, z: HandState, b: HandState)
    requires
        replays_to(a, events, z),
        table_of(b) == table_of(a),
    ensures
        forall|k: int| 0 <= k < events.len() ==> table_event(#[trigger] events[k]),
        replay_table(table_of(b), events) == table_of(z),
{
}

/// What replaying a draw of `tile` by `seat` makes of the table of `a` in `b`.
pub open spec fn draw_replayed(a: HandState, seat: usize, tile: Tile, b: HandState) -> bool {
    &&& b.hands@[seat as int].concealed@.to_multiset() == a.hands@[seat as int].concealed@.to_multiset().insert(tile)
    &&& b.hands@[seat as int].melds@ == a.hands@[seat as int].melds@
    &&& forall|i: int| 0 <= i < 4 && i != seat ==> #[trigger] b.hands@[i] == a.hands@[i]
    &&& b.discards == a.discards
    &&& a.wall.live_seq().len() > 0 ==> b.wall.live_seq() == a.wall.live_seq().drop_first()
    &&& a.wall.live_seq().len() == 0 ==> b.wall.live_seq() == a.wall.live_seq()
}

/// What replaying a discard of `tile` by `seat` makes of the table of `a` in `b`.
pub open spec fn discard_replayed(a: HandState, seat: usize, tile: Tile, b: HandState) -> bool {
    &&& b.hands@[seat as int].concealed@ == remove_first(a.hands@[seat as int].concealed@, tile)
    &&& b.hands@[seat as int].melds@ == a.hands@[seat as int].melds@
    &&& forall|i: int| 0 <= i < 4 && i != seat ==> #[trigger] b.hands@[i] == a.hands@[i]
    &&& b.discards@[seat as int]@ == a.discards@[seat as int]@.push(tile)
    &&& forall|i: int| 0 <= i < 4 && i != seat ==> #[trigger] b.discards@[i] == a.discards@[i]
    &&& b.wall.live_seq() == a.wall.live_seq()
}

/// Replaying the draw that `seat` made from table `a` onto a table `b` laid out the same way
/// succeeds (the seat has room for the tile), and leads to the same table as the draw.
pub proof fn lemma_replayed_draw_matches(a: HandState, seat: usize, a2: HandState, b: HandState, b2: HandState)
    requires
        seat < 4,
        same_table(a, b),
        drew(a, seat, a2),
    ensures
        b.hands@[seat as int].concealed@.len() < 136,
        draw_replayed(b, seat, a.wall.live_seq()[0], b2) ==> same_table(a2, b2),
{
    assert(a.hands@[seat as int].concealed@.to_multiset() == b.hands@[seat as int].concealed@.to_multiset());
    a.hands@[seat as int].concealed@.to_multiset_ensures();
    b.hands@[seat as int].concealed@.to_multiset_ensures();
    if draw_replayed(b, seat, a.wall.live_seq()[0], b2) {
        assert forall|i: int| 0 <= i < 4 implies (#[trigger] a2.hands@[i]).concealed@.to_multiset()
            == b2.hands@[i].concealed@.to_multiset() && a2.hands@[i].melds@ == b2.hands@[i].melds@ by {
            if i != seat {
                assert(a2.hands@[i] == a.hands@[i]);
                assert(b2.hands@[i] == b.hands@[i]);
            }
        }
        assert forall|i: int| 0 <= i < 4 implies (#[trigger] a2.discards@[i])@ == b2.discards@[i]@ by {
            assert(a.discards@[i]@ == b.discards@[i]@);
        }
    }
}

/// Replaying the discard of `tile` that `seat` made from table `a` onto a table `b` laid out
/// the same way succeeds (the seat holds the tile), and leads to the same table as the discard.
pub proof fn lemma_replayed_discard_matches(a: HandState, seat: usize, tile: Tile, a2: HandState, b: HandState, b2: HandState)
    requires
        seat < 4,
        same_table(a, b),
        discarded(a, seat, tile, a2),
    ensures
        b.hands@[seat as int].concealed@.contains(tile),
        discard_replayed(b, seat, tile, b2) ==> same_table(a2, b2),
{
    let ca = a.hands@[seat as int].concealed@;
    let cb = b.hands@[seat as int].concealed@;
    assert(ca.to_multiset() == cb.to_multiset());
    ca.to_multiset_ensures();
    cb.to_multiset_ensures();
    assert(ca.to_multiset().count(tile) > 0);
    assert(cb.contains(tile));
    if discard_replayed(b, seat, tile, b2) {
        lemma_remove_first_multiset(ca, tile);
        lemma_remove_first_multiset(cb, tile);
        assert forall|i: int| 0 <= i < 4 implies (#[trigger] a2.hands@[i]).concealed@.to_multiset()
            == b2.hands@[i].concealed@.to_multiset() && a2.hands@[i].melds@ == b2.hands@[i].melds@ by {
            if i != seat {
                assert(a2.hands@[i] == a.hands@[i]);
                assert(b2.hands@[i] == b.hands@[i]);
            }
        }
        assert forall|i: int| 0 <= i < 4 implies (#[trigger] a2.discards@[i])@ == b2.discards@[i]@ by {
            assert(a.discards@[i]@ == b.discards@[i]@);
            if i != seat {
                assert(a2.discards@[i] == a.discards@[i]);
                assert(b2.discards@[i] == b.discards@[i]);
            }
        }
    }
}

/// Seat numbers named by an event are seats of the table.
pub open spec fn event_seats_ok(e: Event) -> bool {
    match e {
        Event::Drawn { seat, .. } => seat < 4,
        Event::Discarded { seat, .. } => seat < 4,
        Event::RiichiDeclared { seat, .. } => seat < 4,
        Event::Called { seat, from, .. } => seat < 4 && from < 4,
        Event::RinshanDrawn { seat, .. } => seat < 4,
        Event::KakanDeclared { seat, .. } => seat < 4,
        _ => true,
    }
}

/// The counters an event bumps stay in range.
pub open spec fn event_counters_ok(s: HandState, e: Event) -> bool {
    match e {
        Event::Drawn { seat, .. } => s.live_draws@[seat as int] < 255,
        Event::RiichiDeclared { seat, .. } => s.scores@[seat as int] >= i32::MIN + 1000 && s.table_riichi_sticks < 255,
        _ => true,
    }
}

/// The tiles of a meld that a call takes from the hand: all of them but one copy of the
/// claimed tile.
pub open spec fn tiles_from_hand(tiles: Seq<Tile>, called: Option<Tile>) -> Seq<Tile> {
    match called {
        Some(c) => remove_first(tiles, c),
        None => tiles,
    }
}

/// A recorded call whose meld can be rebuilt: three tiles for a chi (a run through the claimed
/// tile) or a pon, four for a kan, all of the claimed tile's face but for a chi; a claimed tile
/// for every call but a closed kan.
pub open spec fn meld_rebuildable(kind: MeldKind, tiles: Seq<Tile>, called: Option<Tile>) -> bool {
    match kind {
        MeldKind::Chi => tiles.len() == 3 && (called matches Some(c) && chi_shape(tiles) && any_match(tiles, c)),
        MeldKind::Pon => tiles.len() == 3 && (called matches Some(c) && all_match(tiles, c)),
        MeldKind::OpenKan => tiles.len() == 4 && (called matches Some(c) && all_match(tiles, c)),
        MeldKind::ClosedKan => tiles.len() == 4 && all_match(tiles, tiles[0]),
    }
}

/// The tile a recorded meld claims from the river: the last discard, but for a closed kan.
pub open spec fn call_claimed(kind: MeldKind, last: Tile) -> Option<Tile> {
    if kind == MeldKind::ClosedKan {
        None
    } else {
        Some(last)
    }
}

/// A recorded call of `seat` on the last discard of `from` that the hand can take: the river
/// holds a discard, the meld can be rebuilt around it, the seat has room for a meld and holds
/// the meld's other tiles.
pub open spec fn call_replayable(s: HandState, seat: int, from: int, kind: MeldKind, tiles: Seq<Tile>) -> bool {
    &&& s.discards@[from]@.len() > 0
    &&& meld_rebuildable(kind, tiles, Some(s.discards@[from]@.last()))
    &&& s.hands@[seat].melds@.len() < 4
    &&& tiles_from_hand(tiles, call_claimed(kind, s.discards@[from]@.last())).to_multiset().subset_of(
        s.hands@[seat].concealed@.to_multiset(),
    )
}

/// Rebuilds the meld a call event records, from its tiles and the claimed tile.
pub fn replay_build_meld(kind: MeldKind, tiles: &[Tile], called: Option<Tile>) -> (r: Result<Meld, Error>)
    ensures
        r matches Ok(m) ==> m.kind == kind && m.tiles@ == tiles@ && (kind == MeldKind::ClosedKan || m.called == called)
            && (kind == MeldKind::ClosedKan ==> m.called is None),
        r is Ok ==> tiles@.len() == if kind == MeldKind::Chi || kind == MeldKind::Pon {
            3nat
        } else {
            4nat
        },
        (kind == MeldKind::Chi || kind == MeldKind::Pon) && tiles@.len() != 3 ==> r is Err,
        (kind == MeldKind::OpenKan || kind == MeldKind::ClosedKan) && tiles@.len() != 4 ==> r is Err,
        kind != MeldKind::ClosedKan && called is None ==> r is Err,
        r is Ok <==> meld_rebuildable(kind, tiles@, called),
        r matches Err(e) ==> e is ReplayMismatch || e == (Error::InvalidMeld { kind }),
        meld_rebuildable(kind, tiles@, called) ==> (r matches Ok(m) && m.called == (if kind == MeldKind::ClosedKan {
            None
        } else {
            called
        })),
{
    match kind {
        MeldKind::Chi => {
            if tiles.len() != 3 {
                return Err(Error::ReplayMismatch { detail: "chi event has wrong tile count" });
            }
            let c = match called {
                Some(t) => t,
                None => {
                    return Err(Error::ReplayMismatch { detail: "chi event missing called tile" });
                },
            };
            let arr = [tiles[0], tiles[1], tiles[2]];
            proof {
                assert(arr@ =~= tiles@);
            }
            Meld::chi(arr, c)
        },
        MeldKind::Pon => {
            if tiles.len() != 3 {
                return Err(Error::ReplayMismatch { detail: "pon event has wrong tile count" });
            }
            let c = match called {
                Some(t) => t,
                None => {
                    return Err(Error::ReplayMismatch { detail: "pon event missing called tile" });
                },
            };
            let arr = [tiles[0], tiles[1], tiles[2]];
            proof {
                assert(arr@ =~= tiles@);
            }
            Meld::pon(arr, c)
        },
        MeldKind::OpenKan => {
            if tiles.len() != 4 {
                return Err(Error::ReplayMismatch { detail: "open kan event has wrong tile count" });
            }
            let c = match called {
                Some(t) => t,
                None => {
                    return Err(Error::ReplayMismatch { detail: "open kan event missing called tile" });
                },
            };
            let arr = [tiles[0], tiles[1], tiles[2], tiles[3]];
            proof {
                assert(arr@ =~= tiles@);
            }
            Meld::open_kan(arr, c)
        },
        MeldKind::ClosedKan => {
            if tiles.len() != 4 {
                return Err(Error::ReplayMismatch { detail: "closed kan event has wrong tile count" });
            }
            let arr = [tiles[0], tiles[1], tiles[2], tiles[3]];
            proof {
                assert(arr@ =~= tiles@);
            }
            Meld::closed_kan(arr)
        },
    }
}

/// The tiles of a meld other than (one copy of) its claimed tile, in meld order.
fn unclaimed_tiles(tiles: &[Tile], called: Option<Tile>) -> (v: Vec<Tile>)
    ensures
        v@ == tiles_from_hand(tiles@, called),
{
    let mut v = copy_tiles(tiles);
    if let Some(c) = called {
        match find_tile(v.as_slice(), c) {
            Some(i) => {
                proof {
                    lemma_remove_first_at(v@, c, i as int);
                }
                v.remove(i);
            },
            None => {
                proof {
                    lemma_remove_first_absent(v@, c);
                }
            },
        }
    }
    v
}

impl HandState {
    /// Puts a drawn (or rinshan) tile into the hand of `seat`.
    fn replay_take_tile(&mut self, seat: usize, tile: Tile) -> (r: Result<(), Error>)
        requires
            old(self).wf(),
            seat < 4,
        ensures
            final(self).wf(),
            r is Ok <==> old(self).hands@[seat as int].concealed@.len() < 136,
            r is Err ==> *final(self) == *old(self),
            r is Ok ==> {
                &&& final(self).hands@[seat as int].concealed@.to_multiset() == old(self).hands@[seat as int].concealed@.to_multiset().insert(tile)
                &&& sorted(final(self).hands@[seat as int].concealed@)
                &&& final(self).hands@[seat as int].melds@ == old(self).hands@[seat as int].melds@
                &&& forall|i: int| 0 <= i < 4 && i != seat ==> #[trigger] final(self).hands@[i] == old(self).hands@[i]
                &&& *final(self) == (HandState { hands: final(self).hands, last_draw: Some(tile), ..*old(self) })
            },
    {
        if self.hands[seat].concealed.len() >= 136 {
            let c = self.hands[seat].concealed.len();
            let m = self.hands[seat].melds.len();
            return Err(Error::InvalidHandShape { concealed: c, melds: m });
        }
        let ghost old_hands = self.hands@;
        let ghost before = *self;
        self.hands[seat].push_concealed(tile);
        self.hands[seat].sort_concealed();
        self.last_draw = Some(tile);
        proof {
            assert forall|i: int| 0 <= i < 4 implies hand_sizes_ok(#[trigger] self.hands@[i]) by {
                if i == seat {
                    assert(hand_sizes_ok(old_hands[i]));
                }
            }
            if let Some(rr) = self.reaction {
                if rr.kind == ReactionKind::Kakan {
                    assert(kakan_window_ok(before, rr));
                }
            }
        }
        Ok(())
    }

    /// Takes `tile` out of the concealed hand of `seat`.
    fn replay_remove_tile(&mut self, seat: usize, tile: Tile) -> (r: Result<(), Error>)
        requires
            old(self).wf(),
            seat < 4,
        ensures
            final(self).wf(),
            r is Ok <==> old(self).hands@[seat as int].concealed@.contains(tile),
            r is Err ==> *final(self) == *old(self) && r == Err::<(), Error>(Error::TileNotInHand { tile }),
            r is Ok ==> {
                &&& final(self).hands@[seat as int].concealed@ == remove_first(old(self).hands@[seat as int].concealed@, tile)
                &&& final(self).hands@[seat as int].melds@ == old(self).hands@[seat as int].melds@
                &&& forall|i: int| 0 <= i < 4 && i != seat ==> #[trigger] final(self).hands@[i] == old(self).hands@[i]
                &&& *final(self) == (HandState { hands: final(self).hands, ..*old(self) })
            },
    {
        if !self.hands[seat].concealed.contains(tile) {
            return Err(Error::TileNotInHand { tile });
        }
        let ghost old_hands = self.hands@;
        let ghost before = *self;
        let r = self.hands[seat].remove_concealed(tile);
        proof {
            if r is Ok {
                let h = self.hands@[seat as int];
                let oc = old_hands[seat as int].concealed@;
                assert(h.concealed@.to_multiset().len() == h.concealed@.len());
                assert(oc.to_multiset().len() == oc.len());
                assert forall|i: int| 0 <= i < 4 implies hand_sizes_ok(#[trigger] self.hands@[i]) by {
                    if i == seat {
                        assert(hand_sizes_ok(old_hands[i]));
                    }
                }
                if let Some(rr) = self.reaction {
                    if rr.kind == ReactionKind::Kakan {
                        assert(kakan_window_ok(before, rr));
                    }
                }
            }
        }
        r
    }

    /// Lays down a recorded call of `seat` on the last discard of `from`.
    fn replay_call(&mut self, seat: usize, from: usize, kind: MeldKind, tiles: &[Tile]) -> (r: Result<(), Error>)
        requires
            old(self).wf(),
            seat < 4,
            from < 4,
        ensures
            final(self).wf(),
            old(self).discards@[from as int]@.len() == 0 ==> r == Err::<(), Error>(Error::ReplayMismatch {
                detail: "no discard to complete call event",
            }),
            r is Ok <==> call_replayable(*old(self), seat as int, from as int, kind, tiles@),
            r is Ok ==> {
                &&& final(self).hands@[seat as int].concealed@.to_multiset().add(
                    tiles_from_hand(tiles@, call_claimed(kind, old(self).discards@[from as int]@.last())).to_multiset(),
                ) == old(self).hands@[seat as int].concealed@.to_multiset()
                &&& final(self).discards@[from as int]@ == old(self).discards@[from as int]@.drop_last()
                &&& final(self).last_discard == (if old(self).last_discard == Some((from, old(self).discards@[from as int]@.last())) {
                    None
                } else {
                    old(self).last_discard
                })
                &&& final(self).hands@[seat as int].melds@.len() == old(self).hands@[seat as int].melds@.len() + 1
                &&& final(self).hands@[seat as int].melds@.last().kind == kind
                &&& final(self).hands@[seat as int].melds@.last().tiles@ == tiles@
                &&& final(self).current_actor == seat
                &&& final(self).phase == HandPhase::Discard
                &&& final(self).reaction is None
                &&& final(self).calls_made
            },
    {
        let n = self.discards[from].len();
        if n == 0 {
            return Err(Error::ReplayMismatch { detail: "no discard to complete call event" });
        }
        let called = self.discards[from][n - 1];
        self.reaction = None;
        let ghost cleared = *self;
        match self.pop_called_discard(from) {
            Ok(()) => {},
            Err(e) => {
                proof {
                    assert(false);
                }
                return Err(e);
            },
        }
        let meld = match replay_build_meld(kind, tiles, Some(called)) {
            Ok(m) => m,
            Err(e) => {
                return Err(e);
            },
        };
        if self.hands[seat].melds.len() >= 4 {
            let c = self.hands[seat].concealed.len();
            let m = self.hands[seat].melds.len();
            return Err(Error::InvalidHandShape { concealed: c, melds: m });
        }
        let remove = unclaimed_tiles(meld.tiles.as_slice(), meld.called);
        let ghost old_hands = self.hands@;
        assert(remove@ == tiles_from_hand(tiles@, call_claimed(kind, called)));
        assert(old_hands == old(self).hands@);
        match self.hands[seat].remove_all(remove.as_slice()) {
            Ok(()) => {},
            Err(e) => {
                return Err(e);
            },
        }
        proof {
            broadcast use vstd::multiset::group_multiset_axioms;
            let fh = self.hands@[seat as int].concealed@.to_multiset();
            let rm = remove@.to_multiset();
            assert(rm.subset_of(old_hands[seat as int].concealed@.to_multiset())) by {
                assert forall|v: Tile| rm.count(v) <= old_hands[seat as int].concealed@.to_multiset().count(v) by {
                    assert(fh.add(rm).count(v) == fh.count(v) + rm.count(v));
                }
            }
        }
        let ghost m = meld;
        self.hands[seat].push_meld(meld);
        self.current_actor = seat;
        self.phase = HandPhase::Discard;
        self.calls_made = true;
        self.void_ippatsu();
        proof {
            let h = self.hands@[seat as int];
            let oh = old_hands[seat as int];
            assert(h.melds@ == oh.melds@.push(m));
            assert forall|i: int| 0 <= i < 4 implies hand_sizes_ok(#[trigger] self.hands@[i]) by {
                if i == seat {
                    assert(hand_sizes_ok(oh));
                    assert forall|k: int| 0 <= k < h.melds@.len() implies 1 <= (#[trigger] h.melds@[k]).tiles@.len() <= 4 by {
                        if k < oh.melds@.len() {
                            assert(h.melds@[k] == oh.melds@[k]);
                        }
                    }
                }
            }
        }
        Ok(())
    }

    /// Applies one recorded event, for replay. Wall tile order is not checked.
    #[verifier::rlimit(40)]
    pub fn apply_event(&mut self, event: &Event) -> (r: Result<(), Error>)
        requires
            old(self).wf(),
            event_seats_ok(*event),
            event_counters_ok(*old(self), *event),
        ensures
            final(self).wf(),
            match *event {
                Event::Dealt { dealer } => (r is Ok <==> old(self).dealer == dealer) && *final(self) == *old(self),
                Event::HandStarted { .. } => r is Ok && *final(self) == (HandState { last_discard: None, ..*old(self) }),
                Event::Drawn { seat, tile } => (r is Ok <==> old(self).hands@[seat as int].concealed@.len() < 136) && (r is Ok
                    ==> {
                    &&& draw_replayed(*old(self), seat, tile, *final(self))
                    &&& final(self).last_draw == Some(tile)
                    &&& !final(self).is_rinshan_draw
                    &&& final(self).live_draws@[seat as int] == old(self).live_draws@[seat as int] + 1
                    &&& final(self).current_actor == seat
                    &&& final(self).phase == HandPhase::Discard
                    &&& (old(self).wall.live_seq().len() > 0 ==> final(self).wall.live_seq() == old(self).wall.live_seq().drop_first())
                }),
                Event::Discarded { seat, tile } => (r is Ok <==> old(self).hands@[seat as int].concealed@.contains(tile)) && (r is Ok
                    ==> {
                    &&& discard_replayed(*old(self), seat, tile, *final(self))
                    &&& final(self).last_draw is None
                    &&& final(self).last_discard == Some((seat, tile))
                }),
                Event::RiichiDeclared { seat, .. } => r is Ok && final(self).scores@[seat as int] == old(self).scores@[seat as int] - 1000
                    && final(self).table_riichi_sticks == old(self).table_riichi_sticks + 1 && final(self).riichi@[seat as int]
                    && final(self).ippatsu_live@[seat as int] && final(self).double_riichi@[seat as int] == (old(self).double_riichi@[seat as int]
                    || (old(self).first_discards@[seat as int] is None && !old(self).calls_made)) && final(self).hands
                    == old(self).hands && final(self).discards == old(self).discards && final(self).wall == old(self).wall,
                Event::Called { seat, from, meld, tiles } => (r is Ok <==> call_replayable(*old(self), seat as int, from as int, meld, tiles@))
                    && (r is Ok ==> {
                    &&& final(self).hands@[seat as int].concealed@.to_multiset().add(
                        tiles_from_hand(tiles@, call_claimed(meld, old(self).discards@[from as int]@.last())).to_multiset(),
                    ) == old(self).hands@[seat as int].concealed@.to_multiset()
                    &&& final(self).discards@[from as int]@ == old(self).discards@[from as int]@.drop_last()
                    &&& final(self).hands@[seat as int].melds@.len() == old(self).hands@[seat as int].melds@.len() + 1
                    &&& final(self).hands@[seat as int].melds@.last().kind == meld
                    &&& final(self).hands@[seat as int].melds@.last().tiles@ == tiles@
                    &&& final(self).current_actor == seat
                    &&& final(self).phase == HandPhase::Discard
                    &&& final(self).reaction is None
                    &&& final(self).calls_made
                }),
                Event::DoraRevealed { .. } => r is Ok && *final(self) == (HandState {
                    wall: final(self).wall,
                    ippatsu_live: [false, false, false, false],
                    ..*old(self)
                }) && (kan_room(old(self).wall) ==> final(self).wall.kans() == old(self).wall.kans() + 1
                    && final(self).wall.rinshans() == old(self).wall.rinshans() + 1 && final(self).wall.live_seq()
                    == old(self).wall.live_seq() && final(self).wall.dead_seq() == old(self).wall.dead_seq()) && (!kan_room(
                    old(self).wall,
                ) ==> final(self).wall == old(self).wall),
                Event::RinshanDrawn { seat, tile } => (r is Ok <==> old(self).hands@[seat as int].concealed@.len() < 136) && (r is Ok
                    ==> {
                    &&& final(self).hands@[seat as int].concealed@.to_multiset() == old(self).hands@[seat as int].concealed@.to_multiset().insert(tile)
                    &&& final(self).last_draw == Some(tile)
                    &&& final(self).is_rinshan_draw
                }),
                Event::KakanDeclared { seat, tile, .. } => (r is Ok <==> old(self).hands@[seat as int].concealed@.contains(tile)) && (r is Ok
                    ==> {
                    &&& final(self).hands@[seat as int].concealed@ == remove_first(old(self).hands@[seat as int].concealed@, tile)
                    &&& final(self).phase == HandPhase::Reaction
                    &&& final(self).reaction is None
                }),
                Event::Won { seat, .. } => r is Ok && final(self).phase == HandPhase::Ended && final(self).reaction is None && (
                final(self).end_reason matches Some(HandEndReason::Win { winners }) && ((old(self).end_reason matches Some(
                    HandEndReason::Win { .. },
                )) || winners@ == seq![seat])) && final(self).hands == old(self).hands && final(self).discards
                    == old(self).discards && final(self).wall == old(self).wall,
                Event::ScoresAdjusted { deltas } => r is Ok && *final(self) == (HandState { scores: final(self).scores, ..*old(self) })
                    && forall|i: int| 0 <= i < 4 && i32::MIN <= old(self).scores@[i] + deltas@[i] <= i32::MAX ==> #[trigger] final(self).scores@[i]
                    == old(self).scores@[i] + deltas@[i],
                Event::ExhaustiveDraw { .. } => r is Ok && final(self).phase == HandPhase::Ended && final(self).reaction is None
                    && final(self).end_reason == Some(HandEndReason::ExhaustiveDraw) && final(self).hands == old(self).hands
                    && final(self).discards == old(self).discards && final(self).wall == old(self).wall,
                Event::AbortiveDraw { kind } => r is Ok && final(self).phase == HandPhase::Ended && final(self).reaction is None
                    && final(self).end_reason == Some(HandEndReason::AbortiveDraw(kind)) && final(self).hands == old(self).hands
                    && final(self).discards == old(self).discards && final(self).wall == old(self).wall,
                Event::GameEnded { .. } => r is Ok && *final(self) == *old(self),
            },
            r is Ok && table_event(*event) ==> counters_after(*old(self), *event, *final(self)),
    {
        let ghost before = *self;
        match event {
            Event::Dealt { dealer } => {
                if self.dealer != *dealer {
                    return Err(Error::ReplayMismatch { detail: "dealer does not match dealt event" });
                }
                Ok(())
            },
            Event::HandStarted { .. } => {
                self.last_discard = None;
                Ok(())
            },
            Event::Drawn { seat, tile } => {
                let seat = *seat;
                match self.replay_take_tile(seat, *tile) {
                    Ok(()) => {},
                    Err(e) => {
                        return Err(e);
                    },
                }
                self.is_rinshan_draw = false;
                let ghost ld = self.live_draws@;
                self.live_draws[seat] = self.live_draws[seat] + 1;
                proof {
                    assert(self.live_draws@ =~= ld.update(seat as int, (ld[seat as int] + 1) as u8));
                }
                self.current_actor = seat;
                self.phase = HandPhase::Discard;
                if let Some(rr) = self.reaction {
                    if rr.kind == ReactionKind::Kakan {
                        self.reaction = None;
                    }
                }
                let _ = self.wall.draw_live();
                Ok(())
            },
            Event::Discarded { seat, tile } => {
                let seat = *seat;
                let tile = *tile;
                match self.replay_remove_tile(seat, tile) {
                    Ok(()) => {},
                    Err(e) => {
                        return Err(e);
                    },
                }
                self.discards[seat].push(tile);
                self.last_draw = None;
                self.last_discard = Some((seat, tile));
                if self.first_discards[seat].is_none() {
                    self.first_discards[seat] = Some(tile);
                }
                if seat == self.dealer {
                    self.is_dealer_first_turn = false;
                }
                Ok(())
            },
            Event::RiichiDeclared { seat, .. } => {
                let seat = *seat;
                let is_first_discard = self.first_discards[seat].is_none();
                self.scores[seat] = self.scores[seat] - 1000;
                self.table_riichi_sticks = self.table_riichi_sticks + 1;
                self.riichi[seat] = true;
                self.ippatsu_live[seat] = true;
                if is_first_discard && !self.calls_made {
                    self.double_riichi[seat] = true;
                }
                Ok(())
            },
            Event::Called { seat, from, meld, tiles } => self.replay_call(*seat, *from, *meld, tiles.as_slice()),
            Event::DoraRevealed { .. } => {
                let _ = self.wall.apply_kan();
                self.void_ippatsu();
                Ok(())
            },
            Event::RinshanDrawn { seat, tile } => {
                match self.replay_take_tile(*seat, *tile) {
                    Ok(()) => {},
                    Err(e) => {
                        return Err(e);
                    },
                }
                self.is_rinshan_draw = true;
                Ok(())
            },
            Event::KakanDeclared { seat, tile, .. } => {
                match self.replay_remove_tile(*seat, *tile) {
                    Ok(()) => {},
                    Err(e) => {
                        return Err(e);
                    },
                }
                self.phase = HandPhase::Reaction;
                self.reaction = None;
                self.void_ippatsu();
                Ok(())
            },
            Event::Won { seat, .. } => {
                self.phase = HandPhase::Ended;
                self.reaction = None;
                let already = match &self.end_reason {
                    Some(HandEndReason::Win { .. }) => true,
                    _ => false,
                };
                if !already {
                    let mut winners: Vec<usize> = Vec::new();
                    winners.push(*seat);
                    proof {
                        assert(winners@ =~= seq![*seat]);
                    }
                    self.end_reason = Some(HandEndReason::Win { winners });
                }
                Ok(())
            },
            Event::ScoresAdjusted { deltas } => {
                self.apply_deltas(deltas);
                proof {
                    assert(self.scores@ =~= Seq::new(
                        4,
                        |i: int| vstd::wrapping::i32_specs::wrapping_add(before.scores@[i], deltas@[i]),
                    ));
                }
                Ok(())
            },
            Event::ExhaustiveDraw { deltas } => {
                self.apply_deltas(deltas);
                proof {
                    assert(self.scores@ =~= Seq::new(
                        4,
                        |i: int| vstd::wrapping::i32_specs::wrapping_add(before.scores@[i], deltas@[i]),
                    ));
                }
                self.phase = HandPhase::Ended;
                self.reaction = None;
                self.end_reason = Some(HandEndReason::ExhaustiveDraw);
                Ok(())
            },
            Event::AbortiveDraw { kind } => {
                self.phase = HandPhase::Ended;
                self.reaction = None;
                self.end_reason = Some(HandEndReason::AbortiveDraw(*kind));
                Ok(())
            },
            Event::GameEnded { .. } => Ok(()),
        }
    }

    /// Whether `e` names seats of the table and keeps the counters it bumps in range.
    pub fn event_fits(&self, e: &Event) -> (b: bool)
        requires
            self.wf(),
        ensures
            b == (event_seats_ok(*e) && event_counters_ok(*self, *e)),
    {
        match e {
            Event::Drawn { seat, .. } => *seat < 4 && self.live_draws[*seat] < 255,
            Event::Discarded { seat, .. } => *seat < 4,
            Event::RiichiDeclared { seat, .. } => *seat < 4 && self.scores[*seat] >= i32::MIN + 1000
                && self.table_riichi_sticks < 255,
            Event::Called { seat, from, .. } => *seat < 4 && *from < 4,
            Event::RinshanDrawn { seat, .. } => *seat < 4,
            Event::KakanDeclared { seat, .. } => *seat < 4,
            _ => true,
        }
    }

    /// Replays recorded events in order, stopping at the first that names a seat off the
    /// table, would push a counter out of range, or does not fit the hand.
    #[verifier::rlimit(40)]
    pub fn apply_events(&mut self, events: &[Event]) -> (r: Result<(), Error>)
        requires
            old(self).wf(),
        ensures
            final(self).wf(),
            r is Ok && (forall|k: int| 0 <= k < events@.len() ==> table_event(#[trigger] events@[k])) ==> table_of(
                *final(self),
            ) == replay_table(table_of(*old(self)), events@),
            (forall|k: int| 0 <= k < events@.len() ==> table_event(#[trigger] events@[k])) ==> (r is Ok <==> events_accepted(
                ledger_of(*old(self)),
                events@,
            )),
            r is Ok && (forall|k: int| 0 <= k < events@.len() ==> table_event(#[trigger] events@[k])) ==> ledger_of(
                *final(self),
            ) == ledger_replay(ledger_of(*old(self)), events@),
    {
        let ghost start = *self;
        let ghost all = forall|k: int| 0 <= k < events@.len() ==> table_event(#[trigger] events@[k]);
        let mut i: usize = 0;
        while i < events.len()
            invariant
                self.wf(),
                i <= events@.len(),
                start == *old(self),
                all == (forall|k: int| 0 <= k < events@.len() ==> table_event(#[trigger] events@[k])),
                (forall|k: int| 0 <= k < i ==> table_event(#[trigger] events@[k])) ==> table_of(*self) == replay_table(
                    table_of(start),
                    events@.take(i as int),
                ),
                all ==> ledger_of(*self) == ledger_replay(ledger_of(start), events@.take(i as int)) && events_accepted(
                    ledger_of(start),
                    events@.take(i as int),
                ),
            decreases events@.len() - i,
        {
            let e = &events[i];
            proof {
                assert(events@.take(i + 1).drop_last() =~= events@.take(i as int));
                assert(events@.take(i + 1).last() == *e);
                if all {
                    assert(table_event(events@[i as int]));
                    let l = ledger_of(*self);
                    match *e {
                        Event::Drawn { seat, .. } => {
                            if seat < 4 {
                                assert(l.0.0[seat as int] == self.hands@[seat as int].concealed@.to_multiset());
                                self.hands@[seat as int].concealed@.to_multiset_ensures();
                            }
                        },
                        Event::Discarded { seat, tile } => {
                            if seat < 4 {
                                assert(l.0.0[seat as int] == self.hands@[seat as int].concealed@.to_multiset());
                                self.hands@[seat as int].concealed@.to_multiset_ensures();
                            }
                        },
                        _ => {},
                    }
                }
            }
            if !self.event_fits(e) {
                proof {
                    if all {
                        assert(!events_accepted(ledger_of(start), events@.take(i + 1)));
                        if events_accepted(ledger_of(start), events@) {
                            lemma_events_accepted_prefix(ledger_of(start), events@, i + 1);
                        }
                    }
                }
                return Err(Error::ReplayMismatch { detail: "event seat or counter out of range" });
            }
            let ghost before = *self;
            match self.apply_event(e) {
                Ok(()) => {},
                Err(err) => {
                    proof {
                        if all {
                            assert(!events_accepted(ledger_of(start), events@.take(i + 1)));
                            if events_accepted(ledger_of(start), events@) {
                                lemma_events_accepted_prefix(ledger_of(start), events@, i + 1);
                            }
                        }
                    }
                    return Err(err);
                },
            }
            proof {
                if table_event(*e) {
                    match *e {
                        Event::Drawn { seat, tile } => {
                            lemma_table_draw(before, seat, tile, *self);
                        },
                        Event::Discarded { seat, tile } => {
                            lemma_table_discard(before, seat, tile, *self);
                        },
                        _ => {
                            lemma_table_unchanged(before, *self);
                        },
                    }
                    assert(ledger_of(*self) == ledger_after(ledger_of(before), *e));
                }
                if forall|k: int| 0 <= k < i + 1 ==> table_event(#[trigger] events@[k]) {
                    assert(forall|k: int| 0 <= k < i ==> table_event(#[trigger] events@[k]));
                }
            }
            i = i + 1;
        }
        proof {
            assert(events@.take(events@.len() as int) =~= events@);
        }
        Ok(())
    }

    /// Reopens the reaction window on the last tile `seat` discarded, after its discard event
    /// was replayed.
    pub fn apply_discard_followup(&mut self, seat: usize) -> (r: Result<(), Error>)
        requires
            old(self).wf(),
            seat < 4,
        ensures
            final(self).wf(),
            r is Ok <==> old(self).discards@[seat as int]@.len() > 0,
            r is Ok ==> final(self).current_actor == (seat + 1) % 4 && final(self).phase == HandPhase::Reaction
                && final(self).reaction == Some(ReactionState::new_spec(seat, old(self).discards@[seat as int]@.last())),
    {
        let n = self.discards[seat].len();
        if n == 0 {
            return Err(Error::ReplayMismatch { detail: "discard follow-up without tile" });
        }
        let tile = self.discards[seat][n - 1];
        self.current_actor = (seat + 1) % 4;
        self.phase = HandPhase::Reaction;
        self.reaction = Some(ReactionState::new(seat, tile));
        Ok(())
    }
}

} // verus!
