//! Payments of a win and of an exhaustive draw.

use vstd::prelude::*;

use crate::rules::RulesConfig;
use crate::rules::context::WinContext;
use crate::scoring::{Payment, ScoringResult, WinType, Yaku, base_points};
use crate::scoring::limits::base_points_spec;
use crate::state::HandState;

use super::win::{is_tenpai, tenpai_hand};

verus! {

/// Points rounded up to the next hundred.
pub open spec fn round_up_hundred(p: int) -> int {
    ((p + 99) / 100) * 100
}

/// What a ron winner collects from the discarder: six (dealer) or four times the basic points,
/// rounded up, plus 300 per honba and the riichi sticks on the table.
pub open spec fn ron_total(base: int, dealer_wins: bool, honba: int, sticks: int) -> int {
    round_up_hundred(base * if dealer_wins { 6int } else { 4int }) + honba * 300 + sticks * 1000
}

/// What `seat` pays a tsumo winner: twice the basic points when the winner or the payer is the
/// dealer, else the basic points, rounded up, plus 100 per honba.
pub open spec fn tsumo_pay(base: int, dealer_wins: bool, payer_is_dealer: bool, honba: int) -> int {
    round_up_hundred(if dealer_wins || payer_is_dealer { base * 2 } else { base }) + honba * 100
}

pub open spec fn tsumo_pay_of(base: int, winner: int, dealer: int, seat: int, honba: int) -> int {
    if seat == winner {
        0
    } else {
        tsumo_pay(base, winner == dealer, seat == dealer, honba)
    }
}

/// Rounding up to the hundred adds less than a hundred.
proof fn lemma_round_up_bounds(p: int)
    requires
        p >= 0,
    ensures
        p <= round_up_hundred(p) <= p + 99,
{
}

/// The same win pays a dealer more than a child, by tsumo and by ron, once its basic points
/// exceed fifty (below that, rounding to the hundred can make the payments equal).
pub proof fn lemma_dealer_win_pays_more(base: int, dealer: int, child: int, honba: int, sticks: int)
    requires
        0 <= dealer < 4,
        0 <= child < 4,
        child != dealer,
        base > 50,
    ensures
        win_delta(base, dealer, dealer, WinType::Tsumo, honba, sticks, dealer) > win_delta(
            base,
            child,
            dealer,
            WinType::Tsumo,
            honba,
            sticks,
            child,
        ),
        ron_total(base, true, honba, sticks) > ron_total(base, false, honba, sticks),
{
    lemma_round_up_bounds(base);
    lemma_round_up_bounds(base * 2);
    lemma_round_up_bounds(base * 4);
    lemma_round_up_bounds(base * 6);
}

/// Score change of `seat` after a win.
pub open spec fn win_delta(
    base: int,
    winner: int,
    dealer: int,
    win_type: WinType,
    honba: int,
    sticks: int,
    seat: int,
) -> int {
    match win_type {
        WinType::Ron { from } => {
            let total = ron_total(base, winner == dealer, honba, sticks);
            (if seat == winner { total } else { 0 }) - (if seat == from { total } else { 0 })
        },
        WinType::Tsumo => if seat == winner {
            tsumo_pay_of(base, winner, dealer, 0, honba) + tsumo_pay_of(base, winner, dealer, 1, honba)
                + tsumo_pay_of(base, winner, dealer, 2, honba) + tsumo_pay_of(
                base,
                winner,
                dealer,
                3,
                honba,
            ) + sticks * 1000
        } else {
            -tsumo_pay_of(base, winner, dealer, seat, honba)
        },
    }
}

fn round_hundred(p: i32) -> (r: i32)
    requires
        0 <= p <= 1_000_000,
    ensures
        r == round_up_hundred(p as int),
{
    ((p + 99) / 100) * 100
}

/// The scored win: yaku, dora counts, han and fu as given, and the payments they make.
pub fn score_hand(
    ctx: &WinContext,
    yaku: &[Yaku],
    han: u8,
    fu: u8,
    dora: u8,
    ura_dora: u8,
    aka_dora: u8,
    config: &RulesConfig,
) -> (r: ScoringResult)
    requires
        ctx.wf(),
        ctx.win_type matches WinType::Ron { from } ==> from < 4,
    ensures
        r.winner == ctx.winner,
        r.win_type == ctx.win_type,
        r.yaku@ == yaku@,
        r.dora == dora && r.ura_dora == ura_dora && r.aka_dora == aka_dora,
        r.han == han && r.fu == fu,
        forall|s: int| 0 <= s < 4 ==> #[trigger] r.deltas@[s] == win_delta(
            base_points_spec(han, fu),
            ctx.winner as int,
            ctx.state.dealer as int,
            ctx.win_type,
            ctx.state.honba as int,
            ctx.state.table_riichi_sticks as int,
            s,
        ),
        r.payments@.len() == (if ctx.win_type is Ron { 1nat } else { 3nat }),
        ctx.win_type matches WinType::Ron { from } ==> r.payments@[0].payer == from && r.payments@[0].payee == ctx.winner
            && r.payments@[0].points == ron_total(
            base_points_spec(han, fu) as int,
            ctx.winner == ctx.state.dealer,
            ctx.state.honba as int,
            ctx.state.table_riichi_sticks as int,
        ),
        ctx.win_type is Tsumo ==> forall|i: int| 0 <= i < r.payments@.len() ==> (#[trigger] r.payments@[i]).payee == ctx.winner
            && r.payments@[i].payer != ctx.winner && r.payments@[i].payer == (if i < ctx.winner { i } else { i + 1 }),
        ctx.win_type is Tsumo ==> forall|i: int| 0 <= i < r.payments@.len() ==> -(#[trigger] r.payments@[i]).points == win_delta(
            base_points_spec(han, fu),
            ctx.winner as int,
            ctx.state.dealer as int,
            ctx.win_type,
            ctx.state.honba as int,
            ctx.state.table_riichi_sticks as int,
            r.payments@[i].payer as int,
        ),
        r.deltas@[0] + r.deltas@[1] + r.deltas@[2] + r.deltas@[3] == if ctx.win_type is Tsumo {
            ctx.state.table_riichi_sticks * 1000
        } else {
            0
        },
{
    let base = base_points(han, fu);
    let winner = ctx.winner;
    let dealer = ctx.state.dealer;
    let honba = ctx.state.honba as i32;
    let sticks = ctx.state.table_riichi_sticks as i32 * 1000;
    let mut deltas: [i32; 4] = [0, 0, 0, 0];
    let mut payments: Vec<Payment> = Vec::new();
    let ghost b = base as int;
    match ctx.win_type {
        WinType::Ron { from } => {
            let multiplier: i32 = if winner == dealer { 6 } else { 4 };
            let total = round_hundred(base * multiplier) + honba * 300 + sticks;
            payments.push(Payment { payer: from, payee: winner, points: total });
            deltas[from] = deltas[from] - total;
            deltas[winner] = deltas[winner] + total;
            proof {
                assert(total == ron_total(b, winner == dealer, honba as int, ctx.state.table_riichi_sticks as int));
            }
        },
        WinType::Tsumo => {
            let mut seat: usize = 0;
            while seat < 4
                invariant
                    seat <= 4,
                    winner < 4,
                    dealer < 4,
                    0 <= base <= 16_320,
                    0 <= honba <= 255,
                    0 <= sticks <= 255_000,
                    b == base as int,
                    payments@.len() == (if winner < seat { seat - 1 } else { seat as int }),
                    forall|i: int| 0 <= i < payments@.len() ==> (#[trigger] payments@[i]).payee == winner
                        && payments@[i].payer != winner && payments@[i].payer < seat
                        && payments@[i].payer == (if i < winner { i } else { i + 1 })
                        && payments@[i].points == tsumo_pay_of(b, winner as int, dealer as int, payments@[i].payer as int, honba as int),
                    forall|s: int| 0 <= s < 4 && s != winner ==> #[trigger] deltas@[s] == if s < seat {
                        -tsumo_pay_of(b, winner as int, dealer as int, s, honba as int)
                    } else {
                        0
                    },
                    deltas@[winner as int] == (if 0 < seat { tsumo_pay_of(b, winner as int, dealer as int, 0, honba as int) } else { 0 })
                        + (if 1 < seat { tsumo_pay_of(b, winner as int, dealer as int, 1, honba as int) } else { 0 })
                        + (if 2 < seat { tsumo_pay_of(b, winner as int, dealer as int, 2, honba as int) } else { 0 })
                        + (if 3 < seat { tsumo_pay_of(b, winner as int, dealer as int, 3, honba as int) } else { 0 }),
                decreases 4 - seat,
            {
                if seat != winner {
                    let share = if winner == dealer || seat == dealer { base * 2 } else { base };
                    let pay = round_hundred(share) + honba * 100;
                    payments.push(Payment { payer: seat, payee: winner, points: pay });
                    deltas[seat] = deltas[seat] - pay;
                    deltas[winner] = deltas[winner] + pay;
                }
                seat = seat + 1;
            }
            deltas[winner] = deltas[winner] + sticks;
        },
    }
    let mut yaku_copy: Vec<Yaku> = Vec::new();
    let mut i: usize = 0;
    while i < yaku.len()
        invariant
            i <= yaku@.len(),
            yaku_copy@ == yaku@.take(i as int),
        decreases yaku@.len() - i,
    {
        yaku_copy.push(yaku[i]);
        i = i + 1;
        assert(yaku_copy@ =~= yaku@.take(i as int));
    }
    assert(yaku@.take(yaku@.len() as int) =~= yaku@);
    ScoringResult {
        winner,
        win_type: ctx.win_type,
        yaku: yaku_copy,
        dora,
        ura_dora,
        aka_dora,
        han,
        fu,
        payments,
        deltas,
    }
}

/// Exhaustive-draw payments: noten seats pay 3000 in total, split evenly, to the tenpai seats,
/// who share it evenly; nothing changes hands when nobody or everybody is tenpai.
pub open spec fn draw_delta(tenpai: Seq<bool>, seat: int) -> int {
    let t = (if tenpai[0] { 1int } else { 0int }) + (if tenpai[1] { 1int } else { 0int }) + (if tenpai[2] {
        1int
    } else {
        0int
    }) + (if tenpai[3] { 1int } else { 0int });
    if t == 0 || t == 4 {
        0
    } else if tenpai[seat] {
        3000int / t
    } else {
        -(3000int / (4 - t))
    }
}

/// At an exhaustive draw where some but not all seats are tenpai, every tenpai seat gains and
/// every noten seat pays: together the tenpai seats receive 3000 and the noten seats give 3000.
pub proof fn lemma_draw_noten_pays_tenpai(tenpai: Seq<bool>)
    requires
        tenpai.len() == 4,
        exists|i: int| 0 <= i < 4 && #[trigger] tenpai[i],
        exists|j: int| 0 <= j < 4 && !#[trigger] tenpai[j],
    ensures
        forall|s: int| 0 <= s < 4 && tenpai[s] ==> #[trigger] draw_delta(tenpai, s) > 0,
        forall|s: int| 0 <= s < 4 && !tenpai[s] ==> #[trigger] draw_delta(tenpai, s) < 0,
        (if tenpai[0] { draw_delta(tenpai, 0) } else { 0 }) + (if tenpai[1] { draw_delta(tenpai, 1) } else { 0 })
            + (if tenpai[2] { draw_delta(tenpai, 2) } else { 0 }) + (if tenpai[3] {
            draw_delta(tenpai, 3)
        } else {
            0
        }) == 3000,
        (if tenpai[0] { 0 } else { draw_delta(tenpai, 0) }) + (if tenpai[1] { 0 } else { draw_delta(tenpai, 1) })
            + (if tenpai[2] { 0 } else { draw_delta(tenpai, 2) }) + (if tenpai[3] {
            0
        } else {
            draw_delta(tenpai, 3)
        }) == -3000,
{
    let t = (if tenpai[0] { 1int } else { 0int }) + (if tenpai[1] { 1int } else { 0int }) + (if tenpai[2] {
        1int
    } else {
        0int
    }) + (if tenpai[3] { 1int } else { 0int });
    assert(1 <= t <= 3);
    if t == 1 {
        assert(3000int / 1 == 3000 && 3000int / 3 == 1000);
    } else if t == 2 {
        assert(3000int / 2 == 1500);
    } else {
        assert(3000int / 3 == 1000 && 3000int / 1 == 3000);
    }
    assert forall|s: int| 0 <= s < 4 implies (tenpai[s] ==> #[trigger] draw_delta(tenpai, s) > 0) && (
    !tenpai[s] ==> draw_delta(tenpai, s) < 0) by {}
}

/// When every seat or no seat is tenpai at an exhaustive draw, nobody pays.
pub proof fn lemma_draw_all_or_none_tenpai(tenpai: Seq<bool>)
    requires
        tenpai.len() == 4,
        (forall|i: int| 0 <= i < 4 ==> #[trigger] tenpai[i]) || (forall|i: int|
            0 <= i < 4 ==> !#[trigger] tenpai[i]),
    ensures
        forall|s: int| 0 <= s < 4 ==> #[trigger] draw_delta(tenpai, s) == 0,
{
    assert(tenpai[0] == tenpai[1] && tenpai[1] == tenpai[2] && tenpai[2] == tenpai[3]);
}

pub open spec fn tenpai_seats(s: HandState) -> Seq<bool> {
    Seq::new(4, |i: int| tenpai_hand(s.hands@[i]))
}

/// Score changes of an exhaustive draw.
pub fn score_exhaustive_draw(state: &HandState) -> (deltas: [i32; 4])
    requires
        state.wf(),
    ensures
        forall|s: int| 0 <= s < 4 ==> #[trigger] deltas@[s] == draw_delta(tenpai_seats(*state), s),
        deltas@[0] + deltas@[1] + deltas@[2] + deltas@[3] == 0,
{
    let t0 = is_tenpai(&state.hands[0]);
    let t1 = is_tenpai(&state.hands[1]);
    let t2 = is_tenpai(&state.hands[2]);
    let t3 = is_tenpai(&state.hands[3]);
    let tenpai = [t0, t1, t2, t3];
    let count: i32 = (if t0 { 1 } else { 0 }) + (if t1 { 1 } else { 0 }) + (if t2 { 1 } else { 0 }) + (if t3 {
        1
    } else {
        0
    });
    proof {
        assert(tenpai@ =~= tenpai_seats(*state));
    }
    if count == 0 || count == 4 {
        return [0, 0, 0, 0];
    }
    let pay = 3000 / (4 - count);
    let gain = 3000 / count;
    let mut deltas: [i32; 4] = [0, 0, 0, 0];
    let mut seat: usize = 0;
    while seat < 4
        invariant
            seat <= 4,
            1 <= count <= 3,
            pay as int == 3000int / (4 - count),
            gain as int == 3000int / (count as int),
            forall|s: int| 0 <= s < 4 ==> #[trigger] deltas@[s] == if s < seat {
                if tenpai@[s] { gain as int } else { -pay }
            } else {
                0
            },
        decreases 4 - seat,
    {
        deltas[seat] = if tenpai[seat] { gain } else { -pay };
        seat = seat + 1;
    }
    proof {
        assert(count == (if tenpai@[0] { 1int } else { 0int }) + (if tenpai@[1] { 1int } else { 0int })
            + (if tenpai@[2] { 1int } else { 0int }) + (if tenpai@[3] { 1int } else { 0int }));
        assert(deltas@[0] + deltas@[1] + deltas@[2] + deltas@[3] == 0) by {
            if count == 1 {
                assert(gain == 3000 && pay == 1000);
            } else if count == 2 {
                assert(gain == 1500 && pay == 1500);
            } else {
                assert(gain == 1000 && pay == 3000);
            }
        }
    }
    deltas
}

} // verus!
