//! Display lines for a scored win.

use vstd::prelude::*;
use vstd::string::*;

use crate::scoring::limits::{limit_band_label, limit_label_spec};
use crate::scoring::result::{Payment, ScoringResult, WinType, Yaku, closed_han_spec, yaku_label};
use crate::text::{decimal, decimal_string, plus_signed_decimal, plus_signed_string, push_str, signed_decimal, signed_string};

verus! {

/// "Tsumo", or "Ron (from seat N)" with seats numbered from 1.
pub open spec fn result_win_type_text(w: WinType) -> Seq<char> {
    match w {
        WinType::Tsumo => seq!['T', 's', 'u', 'm', 'o'],
        WinType::Ron { from } => seq!['R', 'o', 'n', ' ', '(', 'f', 'r', 'o', 'm', ' ', 's', 'e', 'a', 't', ' ']
            + decimal((from + 1) as nat) + seq![')'],
    }
}

/// "<yaku> (<han> han)".
pub open spec fn yaku_line(y: Yaku) -> Seq<char> {
    yaku_label(y) + seq![' ', '('] + decimal(closed_han_spec(y) as nat) + seq![' ', 'h', 'a', 'n', ')']
}

/// "<name>: <n> han".
pub open spec fn dora_line(name: Seq<char>, n: u8) -> Seq<char> {
    name + seq![':', ' '] + decimal(n as nat) + seq![' ', 'h', 'a', 'n']
}

/// The dora lines of a result: dora, ura-dora and aka-dora, each only when nonzero.
pub open spec fn dora_lines_spec(r: ScoringResult) -> Seq<Seq<char>> {
    (if r.dora > 0 {
        seq![dora_line(seq!['D', 'o', 'r', 'a'], r.dora)]
    } else {
        Seq::empty()
    }) + (if r.ura_dora > 0 {
        seq![dora_line(seq!['U', 'r', 'a', '-', 'd', 'o', 'r', 'a'], r.ura_dora)]
    } else {
        Seq::empty()
    }) + (if r.aka_dora > 0 {
        seq![dora_line(seq!['A', 'k', 'a', '-', 'd', 'o', 'r', 'a'], r.aka_dora)]
    } else {
        Seq::empty()
    })
}

/// "Seat P → seat Q: N pts" with seats numbered from 1.
pub open spec fn payment_line(p: Payment) -> Seq<char> {
    seq!['S', 'e', 'a', 't', ' '] + decimal((p.payer + 1) as nat) + seq![' ', '→', ' ', 's', 'e', 'a', 't', ' ']
        + decimal((p.payee + 1) as nat) + seq![':', ' '] + signed_decimal(p.points as int) + seq![' ', 'p', 't', 's']
}

/// "Seat N: +D" with seats numbered from 1 and the sign always shown.
pub open spec fn delta_line(seat: int, d: i32) -> Seq<char> {
    seq!['S', 'e', 'a', 't', ' '] + decimal((seat + 1) as nat) + seq![':', ' '] + plus_signed_decimal(d as int)
}

/// The delta lines of a result: one per seat whose score changes, in seat order.
pub open spec fn delta_lines_upto(deltas: [i32; 4], n: int) -> Seq<Seq<char>>
    decreases n,
{
    if n <= 0 {
        Seq::empty()
    } else if deltas@[n - 1] != 0 {
        delta_lines_upto(deltas, n - 1).push(delta_line(n - 1, deltas@[n - 1]))
    } else {
        delta_lines_upto(deltas, n - 1)
    }
}

fn dora_text(name: &str, n: u8) -> (s: String)
    ensures
        s@ == dora_line(name@, n),
{
    let mut s = String::from_str(name);
    proof { reveal_strlit(": "); }
    push_str(&mut s, ": ");
    push_str(&mut s, decimal_string(n as u64).as_str());
    proof { reveal_strlit(" han"); }
    push_str(&mut s, " han");
    s
}

impl ScoringResult {
    /// How the hand was won, for display.
    pub fn win_type_label(&self) -> (s: String)
        requires
            self.win_type matches WinType::Ron { from } ==> from < usize::MAX,
        ensures
            s@ == result_win_type_text(self.win_type),
    {
        match self.win_type {
            WinType::Tsumo => {
                proof { reveal_strlit("Tsumo"); }
                String::from_str("Tsumo")
            },
            WinType::Ron { from } => {
                proof { reveal_strlit("Ron (from seat "); }
                let mut s = String::from_str("Ron (from seat ");
                push_str(&mut s, decimal_string((from + 1) as u64).as_str());
                proof { reveal_strlit(")"); }
                push_str(&mut s, ")");
                s
            },
        }
    }

    /// The limit band of the hand's han and fu (`Normal`, `Mangan`, ... `Yakuman`).
    pub fn limit_label(&self) -> (s: &'static str)
        ensures
            s@ == limit_label_spec(self.han, self.fu),
    {
        limit_band_label(self.han, self.fu)
    }

    /// One line per yaku with its closed han.
    pub fn yaku_lines(&self) -> (v: Vec<String>)
        ensures
            v@.len() == self.yaku@.len(),
            forall|i: int| 0 <= i < v@.len() ==> (#[trigger] v@[i])@ == yaku_line(self.yaku@[i]),
    {
        let mut v: Vec<String> = Vec::new();
        let mut i: usize = 0;
        while i < self.yaku.len()
            invariant
                i <= self.yaku@.len(),
                v@.len() == i,
                forall|k: int| 0 <= k < i ==> (#[trigger] v@[k])@ == yaku_line(self.yaku@[k]),
            decreases self.yaku@.len() - i,
        {
            let y = self.yaku[i];
            let mut s = String::from_str(y.label());
            proof { reveal_strlit(" ("); }
            push_str(&mut s, " (");
            push_str(&mut s, decimal_string(y.closed_han() as u64).as_str());
            proof { reveal_strlit(" han)"); }
            push_str(&mut s, " han)");
            v.push(s);
            i = i + 1;
        }
        v
    }

    /// Dora, ura-dora and aka-dora lines, each only when nonzero.
    pub fn dora_lines(&self) -> (v: Vec<String>)
        ensures
            v@.len() == dora_lines_spec(*self).len(),
            forall|i: int| 0 <= i < v@.len() ==> (#[trigger] v@[i])@ == dora_lines_spec(*self)[i],
    {
        let mut v: Vec<String> = Vec::new();
        let ghost parts: Seq<Seq<char>> = Seq::empty();
        if self.dora > 0 {
            proof { reveal_strlit("Dora"); }
            v.push(dora_text("Dora", self.dora));
        }
        if self.ura_dora > 0 {
            proof { reveal_strlit("Ura-dora"); }
            v.push(dora_text("Ura-dora", self.ura_dora));
        }
        if self.aka_dora > 0 {
            proof { reveal_strlit("Aka-dora"); }
            v.push(dora_text("Aka-dora", self.aka_dora));
        }
        proof {
            let spec = dora_lines_spec(*self);
            assert(v@.len() == spec.len());
            assert forall|i: int| 0 <= i < v@.len() implies (#[trigger] v@[i])@ == spec[i] by {
                if self.dora > 0 && self.ura_dora > 0 && self.aka_dora > 0 {
                    assert(i == 0 || i == 1 || i == 2);
                }
            }
        }
        v
    }

    /// One line per payment: who pays whom how much.
    pub fn payment_lines(&self) -> (v: Vec<String>)
        requires
            forall|i: int| 0 <= i < self.payments@.len() ==> (#[trigger] self.payments@[i]).payer < usize::MAX
                && self.payments@[i].payee < usize::MAX,
        ensures
            v@.len() == self.payments@.len(),
            forall|i: int| 0 <= i < v@.len() ==> (#[trigger] v@[i])@ == payment_line(self.payments@[i]),
    {
        let mut v: Vec<String> = Vec::new();
        let mut i: usize = 0;
        while i < self.payments.len()
            invariant
                i <= self.payments@.len(),
                v@.len() == i,
                forall|k: int| 0 <= k < self.payments@.len() ==> (#[trigger] self.payments@[k]).payer < usize::MAX
                    && self.payments@[k].payee < usize::MAX,
                forall|k: int| 0 <= k < i ==> (#[trigger] v@[k])@ == payment_line(self.payments@[k]),
            decreases self.payments@.len() - i,
        {
            let p = self.payments[i];
            proof { reveal_strlit("Seat "); }
            let mut s = String::from_str("Seat ");
            push_str(&mut s, decimal_string((p.payer + 1) as u64).as_str());
            proof { reveal_strlit(" → seat "); }
            push_str(&mut s, " → seat ");
            push_str(&mut s, decimal_string((p.payee + 1) as u64).as_str());
            proof { reveal_strlit(": "); }
            push_str(&mut s, ": ");
            push_str(&mut s, signed_string(p.points as i64).as_str());
            proof { reveal_strlit(" pts"); }
            push_str(&mut s, " pts");
            v.push(s);
            i = i + 1;
        }
        v
    }

    /// One line per seat whose score changes, with the signed change.
    pub fn delta_lines(&self) -> (v: Vec<String>)
        ensures
            v@.len() == delta_lines_upto(self.deltas, 4).len(),
            forall|i: int| 0 <= i < v@.len() ==> (#[trigger] v@[i])@ == delta_lines_upto(self.deltas, 4)[i],
    {
        let mut v: Vec<String> = Vec::new();
        let mut seat: usize = 0;
        while seat < 4
            invariant
                seat <= 4,
                v@.len() == delta_lines_upto(self.deltas, seat as int).len(),
                forall|k: int| 0 <= k < v@.len() ==> (#[trigger] v@[k])@ == delta_lines_upto(self.deltas, seat as int)[k],
            decreases 4 - seat,
        {
            let d = self.deltas[seat];
            if d != 0 {
                proof { reveal_strlit("Seat "); }
                let mut s = String::from_str("Seat ");
                push_str(&mut s, decimal_string((seat + 1) as u64).as_str());
                proof { reveal_strlit(": "); }
                push_str(&mut s, ": ");
                push_str(&mut s, plus_signed_string(d as i64).as_str());
                v.push(s);
            }
            seat = seat + 1;
        }
        v
    }
}

} // verus!
