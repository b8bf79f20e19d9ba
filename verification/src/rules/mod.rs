pub mod config;
pub mod profile;

pub use config::RulesConfig;
pub use profile::RulesProfileId;
pub mod standard;
pub mod context;

pub use context::{WinContext, WinTimingFlags};
pub mod registry;
pub mod traits;

pub use registry::RulesRegistry;
pub use standard::StandardRules;
pub use traits::RulesProfile;
pub mod dora;
pub mod flow;
pub mod recommendations;

pub use recommendations::{PathDecomposition, PathGroup, Recommendation, sort_recommendations};

use vstd::prelude::*;

use crate::state::HandState;
use crate::rules::recommendations::ranked;

verus! {

/// Scored win paths for `seat` under the active rules profile, best first, at most `limit`
/// of them (planning view).
pub fn recommendations(state: &HandState, seat: usize, config: &RulesConfig, limit: usize) -> (v: Vec<Recommendation>)
    requires
        state.wf(),
        seat < 4,
    ensures
        v@.len() <= limit,
        ranked(v@),
        forall|i: int| 0 <= i < v@.len() ==> standard::recommend::path_ok(state.hands@[seat as int], seat as int, #[trigger] v@[i]),
        forall|i: int, j: int| 0 <= i < j < v@.len() ==> !standard::recommend::same_path(v@[i], v@[j]),
        limit > 0 && standard::win::tenpai_hand(state.hands@[seat as int]) ==> v@.len() > 0,
        exists|all: Seq<Recommendation>, sorted: Seq<Recommendation>|
            #![trigger standard::recommend::collected(state, seat, *config, all), crate::rules::recommendations::sorted_from(all, sorted)]
            standard::recommend::collected(state, seat, *config, all) && crate::rules::recommendations::sorted_from(all, sorted) && v@ == sorted.take(
                if limit < sorted.len() { limit as int } else { sorted.len() as int },
            ),
{
    match RulesRegistry::get(config.profile) {
        Ok(profile) => profile.recommendations(state, seat, config, limit),
        Err(_) => Vec::new(),
    }
}

/// The candidate win paths of `seat`: the scored paths of [`recommendations`].
pub fn candidate_win_paths(state: &HandState, seat: usize, config: &RulesConfig, limit: usize) -> (v: Vec<Recommendation>)
    requires
        state.wf(),
        seat < 4,
    ensures
        v@.len() <= limit,
        ranked(v@),
        forall|i: int| 0 <= i < v@.len() ==> standard::recommend::path_ok(state.hands@[seat as int], seat as int, #[trigger] v@[i]),
        forall|i: int, j: int| 0 <= i < j < v@.len() ==> !standard::recommend::same_path(v@[i], v@[j]),
        limit > 0 && standard::win::tenpai_hand(state.hands@[seat as int]) ==> v@.len() > 0,
        exists|all: Seq<Recommendation>, sorted: Seq<Recommendation>|
            #![trigger standard::recommend::collected(state, seat, *config, all), crate::rules::recommendations::sorted_from(all, sorted)]
            standard::recommend::collected(state, seat, *config, all) && crate::rules::recommendations::sorted_from(all, sorted) && v@ == sorted.take(
                if limit < sorted.len() { limit as int } else { sorted.len() as int },
            ),
{
    recommendations(state, seat, config, limit)
}

} // verus!
