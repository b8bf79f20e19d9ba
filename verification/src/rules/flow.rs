//! How a match moves on between hands: dealer rotation, honba, round wind and the end.

use vstd::prelude::*;

use crate::game::{AbortiveDrawKind, HandOutcome, MatchLength, RoundWind};
use crate::rules::RulesConfig;

verus! {

/// Whether the match is over: a seat reached the target score, or the last hand of the
/// final round (east for east-only, south for hanchan) has been played.
pub open spec fn game_over(round_wind: RoundWind, kyoku: u8, scores: [i32; 4], config: RulesConfig) -> bool {
    (config.target_score matches Some(target) && exists|i: int| 0 <= i < 4 && #[trigger] scores@[i] >= target)
        || (round_wind == (match config.match_length {
        MatchLength::EastOnly => RoundWind::East,
        MatchLength::Hanchan => RoundWind::South,
    }) && kyoku == 4)
}

/// Game-session progression policy for a rules profile.
pub trait GameFlowPolicy {
    fn is_game_over(&self, round_wind: RoundWind, kyoku: u8, scores: &[i32; 4], config: &RulesConfig) -> (b: bool);
}

/// The standard progression: target score, or the fourth hand of the final round.
pub struct StandardGameFlow;

impl GameFlowPolicy for StandardGameFlow {
    fn is_game_over(&self, round_wind: RoundWind, kyoku: u8, scores: &[i32; 4], config: &RulesConfig) -> (b: bool)
        ensures
            b == game_over(round_wind, kyoku, *scores, *config),
    {
        if let Some(target) = config.target_score {
            let mut i: usize = 0;
            while i < 4
                invariant
                    i <= 4,
                    config.target_score == Some(target),
                    forall|k: int| 0 <= k < i ==> scores@[k] < target,
                decreases 4 - i,
            {
                if scores[i] >= target {
                    return true;
                }
                i = i + 1;
            }
        }
        let final_round = match config.match_length {
            MatchLength::EastOnly => RoundWind::East,
            MatchLength::Hanchan => RoundWind::South,
        };
        round_wind == final_round && kyoku == 4
    }
}

/// The dealer keeps the seat (renchan): a dealer win, or dealer tenpai after an exhaustive
/// draw or a four-kan or four-riichi abort.
pub open spec fn renchan(dealer: usize, outcome: HandOutcome, dealer_tenpai: bool) -> bool {
    match outcome {
        HandOutcome::Win { winners } => winners@.contains(dealer),
        HandOutcome::ExhaustiveDraw => dealer_tenpai,
        HandOutcome::AbortiveDraw(AbortiveDrawKind::FourKongs) => dealer_tenpai,
        HandOutcome::AbortiveDraw(AbortiveDrawKind::FourRiichis) => dealer_tenpai,
        HandOutcome::AbortiveDraw(_) => false,
    }
}

/// The dealer, honba, round wind and hand number after a hand ends.
pub open spec fn advance_spec(
    dealer: usize,
    honba: u8,
    round_wind: RoundWind,
    kyoku: u8,
    outcome: HandOutcome,
    dealer_tenpai: bool,
) -> (usize, u8, RoundWind, u8) {
    if outcome matches HandOutcome::AbortiveDraw(k) && (k == AbortiveDrawKind::NineTerminals || k
        == AbortiveDrawKind::FourWinds) {
        (dealer, honba, round_wind, kyoku)
    } else if renchan(dealer, outcome, dealer_tenpai) {
        (dealer, if honba == 255 { 255 } else { (honba + 1) as u8 }, round_wind, kyoku)
    } else if (dealer + 1) % 4 == 0 {
        (0, 0, RoundWind::South, 1)
    } else {
        (((dealer + 1) % 4) as usize, 0, round_wind, if kyoku == 255 { 255 } else { (kyoku + 1) as u8 })
    }
}

/// After an exhaustive draw the dealer's tenpai decides: tenpai, the dealer keeps the seat
/// with one more honba (capped at 255) in the same round and hand; noten, the deal passes to
/// the next seat and the honba count starts again at zero.
pub proof fn lemma_exhaustive_draw_dealer_tenpai(dealer: usize, honba: u8, round_wind: RoundWind, kyoku: u8)
    ensures
        advance_spec(dealer, honba, round_wind, kyoku, HandOutcome::ExhaustiveDraw, true) == (
            dealer,
            (if honba == 255 { 255 } else { honba + 1 }) as u8,
            round_wind,
            kyoku,
        ),
        advance_spec(dealer, honba, round_wind, kyoku, HandOutcome::ExhaustiveDraw, false).0 == (dealer
            + 1) % 4,
        advance_spec(dealer, honba, round_wind, kyoku, HandOutcome::ExhaustiveDraw, false).1 == 0,
        advance_spec(dealer, honba, round_wind, kyoku, HandOutcome::ExhaustiveDraw, true)
            != advance_spec(dealer, honba, round_wind, kyoku, HandOutcome::ExhaustiveDraw, false),
{
}

/// Who deals next: a nine-terminals or four-winds abort replays the hand unchanged; after a
/// win the dealer stays exactly when among the winners; after an exhaustive draw or a
/// four-kan or four-riichi abort the dealer stays exactly when tenpai. Whenever the dealer
/// stays, the round and hand number stay too.
pub proof fn lemma_dealer_stays(
    dealer: usize,
    honba: u8,
    round_wind: RoundWind,
    kyoku: u8,
    outcome: HandOutcome,
    dealer_tenpai: bool,
)
    ensures
        (outcome == HandOutcome::AbortiveDraw(AbortiveDrawKind::NineTerminals) || outcome
            == HandOutcome::AbortiveDraw(AbortiveDrawKind::FourWinds)) ==> advance_spec(
            dealer,
            honba,
            round_wind,
            kyoku,
            outcome,
            dealer_tenpai,
        ) == (dealer, honba, round_wind, kyoku),
        outcome matches HandOutcome::Win { winners } ==> (advance_spec(
            dealer,
            honba,
            round_wind,
            kyoku,
            outcome,
            dealer_tenpai,
        ).0 == dealer <==> winners@.contains(dealer)),
        (outcome is ExhaustiveDraw || outcome == HandOutcome::AbortiveDraw(AbortiveDrawKind::FourKongs)
            || outcome == HandOutcome::AbortiveDraw(AbortiveDrawKind::FourRiichis)) ==> (advance_spec(
            dealer,
            honba,
            round_wind,
            kyoku,
            outcome,
            dealer_tenpai,
        ).0 == dealer <==> dealer_tenpai),
        advance_spec(dealer, honba, round_wind, kyoku, outcome, dealer_tenpai).0 == dealer ==> (
        advance_spec(dealer, honba, round_wind, kyoku, outcome, dealer_tenpai).2 == round_wind
            && advance_spec(dealer, honba, round_wind, kyoku, outcome, dealer_tenpai).3 == kyoku),
{
}

/// Advances dealer, honba, round wind and hand number after a hand ends: a nine-terminals
/// or four-winds abort replays the hand; renchan keeps the dealer and adds a honba;
/// otherwise the deal passes on, honba resets, and passing back to seat 0 starts the
/// south round.
pub fn advance_after_hand(
    dealer: usize,
    honba: u8,
    round_wind: RoundWind,
    kyoku: u8,
    outcome: HandOutcome,
    dealer_tenpai: bool,
) -> (r: (usize, u8, RoundWind, u8))
    requires
        dealer < usize::MAX,
    ensures
        r == advance_spec(dealer, honba, round_wind, kyoku, outcome, dealer_tenpai),
{
    let replay = match &outcome {
        HandOutcome::AbortiveDraw(AbortiveDrawKind::NineTerminals) => true,
        HandOutcome::AbortiveDraw(AbortiveDrawKind::FourWinds) => true,
        _ => false,
    };
    if replay {
        return (dealer, honba, round_wind, kyoku);
    }
    let keep = match &outcome {
        HandOutcome::Win { winners } => {
            let mut found = false;
            let mut i: usize = 0;
            while i < winners.len()
                invariant
                    i <= winners@.len(),
                    found == exists|k: int| 0 <= k < i && winners@[k] == dealer,
                decreases winners@.len() - i,
            {
                if winners[i] == dealer {
                    found = true;
                }
                i = i + 1;
            }
            found
        },
        HandOutcome::ExhaustiveDraw => dealer_tenpai,
        HandOutcome::AbortiveDraw(AbortiveDrawKind::FourKongs) => dealer_tenpai,
        HandOutcome::AbortiveDraw(AbortiveDrawKind::FourRiichis) => dealer_tenpai,
        HandOutcome::AbortiveDraw(_) => false,
    };
    if keep {
        return (dealer, honba.saturating_add(1), round_wind, kyoku);
    }
    let next = (dealer + 1) % 4;
    if next == 0 {
        (next, 0, RoundWind::South, 1)
    } else {
        (next, 0, round_wind, kyoku.saturating_add(1))
    }
}

} // verus!
