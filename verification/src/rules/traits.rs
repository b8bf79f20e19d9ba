//! The boundary a rules profile implements: win checks, scoring and draw policies.

use vstd::prelude::*;

use crate::game::{AbortiveDrawKind, AbortiveTrigger};
use crate::hand::Hand;
use crate::rules::RulesConfig;
use crate::rules::context::WinContext;
use crate::rules::profile::RulesProfileId;
use crate::rules::standard::patterns::ctx_ok;
use crate::rules::recommendations::Recommendation;
use crate::scoring::{ScoringResult, WinType};
use crate::state::HandState;
use crate::tile::Tile;

verus! {

/// Ruleset implementation boundary (yaku, scoring, draw policies).
pub trait RulesProfile {
    fn id(&self) -> RulesProfileId;

    fn can_win(&self, ctx: &WinContext, config: &RulesConfig) -> bool;

    fn is_tenpai(&self, hand: &Hand, config: &RulesConfig) -> bool;

    /// Scored win paths for `seat`, best first, at most `limit` of them.
    fn recommendations(&self, state: &HandState, seat: usize, config: &RulesConfig, limit: usize) -> Vec<Recommendation>
        requires
            state.wf(),
            seat < 4,
    ;

    /// Whether discarding this tile keeps the hand tenpai (required for riichi declaration).
    fn is_riichi_discard(&self, hand: &Hand, discard: Tile, config: &RulesConfig) -> bool
        requires
            hand.melds@.len() <= 4,
            hand.concealed@.len() <= 136,
    ;

    fn score_win(&self, ctx: &WinContext, config: &RulesConfig) -> ScoringResult
        requires
            ctx_ok(ctx),
            ctx.win_type matches WinType::Ron { from } ==> from < 4,
    ;

    fn score_exhaustive_draw(&self, state: &HandState, config: &RulesConfig) -> [i32; 4]
        requires
            state.wf(),
    ;

    fn detect_abortive(&self, state: &HandState, config: &RulesConfig, trigger: AbortiveTrigger) -> Option<AbortiveDrawKind>
        requires
            state.wf(),
    ;
}

} // verus!
