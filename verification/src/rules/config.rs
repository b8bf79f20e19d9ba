use vstd::prelude::*;

use crate::game::MatchLength;
use crate::rules::profile::RulesProfileId;

verus! {

/// Tunable parameters within a [`RulesProfileId`].
#[derive(Debug, Clone, Copy, PartialEq, Eq)]
pub struct RulesConfig {
    pub profile: RulesProfileId,
    pub starting_points: i32,
    pub aka_dora: bool,
    pub kiriage: bool,
    pub match_length: MatchLength,
    /// When set, the match ends as soon as any seat reaches this score.
    pub target_score: Option<i32>,
    pub abortive_nine_terminals: bool,
    pub abortive_four_winds: bool,
    pub abortive_four_kongs: bool,
    pub abortive_four_riichis: bool,
    /// Two players may win on the same discard.
    pub double_ron: bool,
    /// Three players may win on the same discard (requires `double_ron`).
    pub triple_ron: bool,
}

/// The default parameters of a profile.
pub open spec fn default_config(profile: RulesProfileId) -> RulesConfig {
    match profile {
        RulesProfileId::Standard => RulesConfig {
            profile,
            starting_points: 25_000,
            aka_dora: true,
            kiriage: false,
            match_length: MatchLength::Hanchan,
            target_score: None,
            abortive_nine_terminals: true,
            abortive_four_winds: true,
            abortive_four_kongs: true,
            abortive_four_riichis: true,
            double_ron: true,
            triple_ron: false,
        },
    }
}

/// How many players may win on one discard: a triple ron counts only where
/// double ron is enabled too.
pub open spec fn max_rons_spec(c: RulesConfig) -> nat {
    if c.double_ron && c.triple_ron {
        3
    } else if c.double_ron {
        2
    } else {
        1
    }
}

impl RulesConfig {
    /// Default parameters for standard Japanese riichi.
    pub fn standard() -> (c: RulesConfig)
        ensures
            c == default_config(RulesProfileId::Standard),
    {
        RulesConfig::default_for(RulesProfileId::Standard)
    }

    pub fn default_for(profile: RulesProfileId) -> (c: RulesConfig)
        ensures
            c == default_config(profile),
    {
        match profile {
            RulesProfileId::Standard => RulesConfig {
                profile,
                starting_points: 25_000,
                aka_dora: true,
                kiriage: false,
                match_length: MatchLength::Hanchan,
                target_score: None,
                abortive_nine_terminals: true,
                abortive_four_winds: true,
                abortive_four_kongs: true,
                abortive_four_riichis: true,
                double_ron: true,
                triple_ron: false,
            },
        }
    }

    pub fn max_rons(&self) -> (n: usize)
        ensures
            n == max_rons_spec(*self),
    {
        if self.double_ron && self.triple_ron {
            3
        } else if self.double_ron {
            2
        } else {
            1
        }
    }
}

} // verus!
