//! Collecting the other seats' answers to a discard or an added kan.

use vstd::prelude::*;

use crate::action::{Action, KanIntent};
use crate::state::calls::{CallKind, call_priority, seat_priority};
use crate::tile::Tile;

verus! {

/// What opened the reaction window.
#[derive(Debug, Clone, Copy, PartialEq, Eq, Structural)]
pub enum ReactionKind {
    /// A discard, open to ron and calls.
    Discard,
    /// A tile added to a pon (kakan), open to ron (chankan) only.
    Kakan,
}

/// The answers collected so far.
#[derive(Debug, Clone, Copy, PartialEq, Eq)]
pub struct ReactionState {
    pub discarder: usize,
    pub tile: Tile,
    pub kind: ReactionKind,
    /// The pon being upgraded, for a kakan window.
    pub kakan_meld_index: Option<usize>,
    pub responses: [Option<Action>; 4],
}

/// The call an action claims, if it is one.
pub open spec fn call_kind_of(action: Action) -> Option<CallKind> {
    match action {
        Action::Chi { .. } => Some(CallKind::Chi),
        Action::Pon => Some(CallKind::Pon),
        Action::Kan(KanIntent::Open) => Some(CallKind::OpenKan),
        _ => None,
    }
}

pub open spec fn priority_of(kind: CallKind) -> int {
    if kind == CallKind::Chi { 1 } else { 2 }
}

pub open spec fn distance(discarder: int, seat: int) -> int {
    (seat + 4 - discarder) % 4
}

/// The call of a seat that answered with one.
pub open spec fn claim(r: ReactionState, seat: int) -> Option<CallKind> {
    if 0 <= seat < 4 && seat != r.discarder && r.responses@[seat] is Some {
        call_kind_of(r.responses@[seat]->0)
    } else {
        None
    }
}

pub open spec fn answered_ron(r: ReactionState, seat: int) -> bool {
    0 <= seat < 4 && seat != r.discarder && r.responses@[seat] matches Some(Action::Ron)
}

/// Every seat but the discarder has answered.
pub open spec fn complete(r: ReactionState) -> bool {
    forall|seat: int| 0 <= seat < 4 ==> seat == r.discarder || (#[trigger] r.responses@[seat]) is Some
}

/// `w`'s call outranks `s`'s: higher priority, or equal priority and closer in turn order.
pub open spec fn outranks(r: ReactionState, w: int, s: int) -> bool {
    let pw = priority_of(claim(r, w)->0);
    let ps = priority_of(claim(r, s)->0);
    pw > ps || (pw == ps && distance(r.discarder as int, w) < distance(r.discarder as int, s))
}

/// Seats that answered ron, nearest to the discarder first.
pub open spec fn ron_order(r: ReactionState) -> Seq<usize> {
    let d = r.discarder as int;
    let s1 = ((d + 1) % 4) as usize;
    let s2 = ((d + 2) % 4) as usize;
    let s3 = ((d + 3) % 4) as usize;
    (if answered_ron(r, s1 as int) { seq![s1] } else { Seq::empty() }) + (if answered_ron(
        r,
        s2 as int,
    ) {
        seq![s2]
    } else {
        Seq::empty()
    }) + (if answered_ron(r, s3 as int) { seq![s3] } else { Seq::empty() })
}

/// The call an action claims, if it is one.
pub fn call_kind(action: Action) -> (k: Option<CallKind>)
    ensures
        k == call_kind_of(action),
{
    match action {
        Action::Chi { .. } => Some(CallKind::Chi),
        Action::Pon => Some(CallKind::Pon),
        Action::Kan(KanIntent::Open) => Some(CallKind::OpenKan),
        _ => None,
    }
}

impl ReactionState {
    /// The window `new` opens.
    pub open spec fn new_spec(discarder: usize, tile: Tile) -> ReactionState {
        ReactionState {
            discarder,
            tile,
            kind: ReactionKind::Discard,
            kakan_meld_index: None,
            responses: [None, None, None, None],
        }
    }

    /// A window on `tile` just discarded by `discarder`.
    pub fn new(discarder: usize, tile: Tile) -> (r: ReactionState)
        ensures
            r == ReactionState::new_spec(discarder, tile),
            r.discarder == discarder,
            r.tile == tile,
            r.kind == ReactionKind::Discard,
            r.kakan_meld_index is None,
            forall|s: int| 0 <= s < 4 ==> (#[trigger] r.responses@[s]) is None,
    {
        ReactionState {
            discarder,
            tile,
            kind: ReactionKind::Discard,
            kakan_meld_index: None,
            responses: [None, None, None, None],
        }
    }

    /// A window on `tile` added by `seat` to the pon at `meld_index`.
    pub fn new_kakan(seat: usize, tile: Tile, meld_index: usize) -> (r: ReactionState)
        ensures
            r == (ReactionState {
                discarder: seat,
                tile,
                kind: ReactionKind::Kakan,
                kakan_meld_index: Some(meld_index),
                responses: [None, None, None, None],
            }),
            r.discarder == seat,
            r.tile == tile,
            r.kind == ReactionKind::Kakan,
            r.kakan_meld_index == Some(meld_index),
            forall|s: int| 0 <= s < 4 ==> (#[trigger] r.responses@[s]) is None,
    {
        ReactionState {
            discarder: seat,
            tile,
            kind: ReactionKind::Kakan,
            kakan_meld_index: Some(meld_index),
            responses: [None, None, None, None],
        }
    }

    /// Whether `seat` still owes an answer.
    pub fn can_respond(&self, seat: usize) -> (b: bool)
        requires
            seat < 4,
        ensures
            b == (seat != self.discarder && self.responses@[seat as int] is None),
    {
        seat != self.discarder && self.responses[seat].is_none()
    }

    /// Records the answer of `seat`.
    pub fn record(&mut self, seat: usize, action: Action)
        requires
            seat < 4,
        ensures
            final(self).responses@ == old(self).responses@.update(seat as int, Some(action)),
            final(self).discarder == old(self).discarder,
            final(self).tile == old(self).tile,
            final(self).kind == old(self).kind,
            final(self).kakan_meld_index == old(self).kakan_meld_index,
    {
        self.responses[seat] = Some(action);
    }

    /// Whether every seat but the discarder has answered.
    pub fn is_complete(&self) -> (b: bool)
        ensures
            b == complete(*self),
    {
        let mut seat: usize = 0;
        while seat < 4
            invariant
                seat <= 4,
                forall|s: int| 0 <= s < seat ==> s == self.discarder || (#[trigger] self.responses@[s]) is Some,
            decreases 4 - seat,
        {
            if seat != self.discarder && self.responses[seat].is_none() {
                return false;
            }
            seat = seat + 1;
        }
        true
    }

    fn any_ron(&self) -> (b: bool)
        ensures
            b == exists|s: int| #[trigger] answered_ron(*self, s),
    {
        let mut seat: usize = 0;
        while seat < 4
            invariant
                seat <= 4,
                forall|s: int| 0 <= s < seat ==> !#[trigger] answered_ron(*self, s),
            decreases 4 - seat,
        {
            if seat != self.discarder {
                if let Some(Action::Ron) = self.responses[seat] {
                    proof {
                        assert(answered_ron(*self, seat as int));
                    }
                    return true;
                }
            }
            seat = seat + 1;
        }
        false
    }

    fn claim_at(&self, seat: usize) -> (k: Option<CallKind>)
        requires
            seat < 4,
        ensures
            k == claim(*self, seat as int),
    {
        if seat == self.discarder {
            return None;
        }
        match self.responses[seat] {
            Some(a) => call_kind(a),
            None => None,
        }
    }

    /// The call that takes the tile once everyone has answered: pon and kan beat chi, ties go
    /// to the seat nearest the discarder. None while answers are missing, when someone
    /// answered ron, or in a kakan window.
    pub fn winning_call(&self) -> (w: Option<(usize, Action)>)
        requires
            self.discarder < 4,
        ensures
            (!complete(*self) || self.kind == ReactionKind::Kakan || (exists|s: int|
                #[trigger] answered_ron(*self, s))) ==> w is None,
            w matches Some((seat, action)) ==> {
                &&& seat < 4
                &&& claim(*self, seat as int) is Some
                &&& self.responses@[seat as int] == Some(action)
                &&& forall|s: int|
                    0 <= s < 4 && s != seat && (#[trigger] claim(*self, s)) is Some ==> outranks(
                        *self,
                        seat as int,
                        s,
                    )
            },
            (complete(*self) && self.kind == ReactionKind::Discard && !(exists|s: int|
                #[trigger] answered_ron(*self, s)) && (exists|s: int|
                #[trigger] claim(*self, s) is Some)) ==> w is Some,
    {
        if !self.is_complete() || self.kind == ReactionKind::Kakan || self.any_ron() {
            return None;
        }
        let mut best: Option<(usize, Action, u8, u8)> = None;
        let mut seat: usize = 0;
        while seat < 4
            invariant
                seat <= 4,
                self.discarder < 4,
                best is None ==> forall|s: int| 0 <= s < seat ==> (#[trigger] claim(*self, s)) is None,
                best matches Some((b, a, p, d)) ==> {
                    &&& b < seat
                    &&& claim(*self, b as int) is Some
                    &&& self.responses@[b as int] == Some(a)
                    &&& p == priority_of(claim(*self, b as int)->0)
                    &&& d == distance(self.discarder as int, b as int)
                    &&& forall|s: int|
                        0 <= s < seat && s != b && (#[trigger] claim(*self, s)) is Some ==> outranks(
                            *self,
                            b as int,
                            s,
                        )
                },
            decreases 4 - seat,
        {
            match self.claim_at(seat) {
                Some(kind) => {
                    let action = match self.responses[seat] {
                        Some(a) => a,
                        None => Action::Pass,
                    };
                    let priority = call_priority(kind);
                    let dist = seat_priority(self.discarder, seat);
                    let better = match best {
                        None => true,
                        Some((_, _, p, d)) => priority > p || (priority == p && dist < d),
                    };
                    if better {
                        proof {
                            if let Some((b, a0, p, d)) = best {
                                assert(distance(self.discarder as int, b as int) != distance(
                                    self.discarder as int,
                                    seat as int,
                                ));
                            }
                        }
                        best = Some((seat, action, priority, dist));
                    } else {
                        proof {
                            if let Some((b, a0, p, d)) = best {
                                assert(distance(self.discarder as int, b as int) != distance(
                                    self.discarder as int,
                                    seat as int,
                                ));
                            }
                        }
                    }
                },
                None => {},
            }
            seat = seat + 1;
        }
        match best {
            Some((b, a, _, _)) => Some((b, a)),
            None => None,
        }
    }

    /// Seats that answered ron, nearest to the discarder first, at most `max_rons` of them.
    pub fn ron_winners(&self, max_rons: usize) -> (v: Vec<usize>)
        requires
            self.discarder < 4,
        ensures
            v@ == ron_order(*self).take(
                if max_rons < ron_order(*self).len() { max_rons as int } else { ron_order(*self).len() as int },
            ),
    {
        let mut all: Vec<usize> = Vec::new();
        let mut d: usize = 1;
        let ghost parts = Seq::<usize>::empty();
        while d < 4
            invariant
                1 <= d <= 4,
                self.discarder < 4,
                all@ == (if d > 1 && answered_ron(*self, ((self.discarder + 1) % 4) as int) {
                    seq![((self.discarder + 1) % 4) as usize]
                } else {
                    Seq::empty()
                }) + (if d > 2 && answered_ron(*self, ((self.discarder + 2) % 4) as int) {
                    seq![((self.discarder + 2) % 4) as usize]
                } else {
                    Seq::empty()
                }) + (if d > 3 && answered_ron(*self, ((self.discarder + 3) % 4) as int) {
                    seq![((self.discarder + 3) % 4) as usize]
                } else {
                    Seq::empty()
                }),
            decreases 4 - d,
        {
            let seat = (self.discarder + d) % 4;
            if let Some(Action::Ron) = self.responses[seat] {
                all.push(seat);
            }
            d = d + 1;
        }
        assert(all@ =~= ron_order(*self));
        let mut v: Vec<usize> = Vec::new();
        let mut i: usize = 0;
        while i < all.len() && i < max_rons
            invariant
                i <= all@.len(),
                i <= max_rons,
                all@ == ron_order(*self),
                v@ == all@.take(i as int),
            decreases all@.len() - i,
        {
            v.push(all[i]);
            i = i + 1;
            assert(v@ =~= all@.take(i as int));
        }
        v
    }
}

} // verus!
