//! Looking up the rules of a profile.

use vstd::prelude::*;

use crate::error::Error;
use crate::rules::profile::RulesProfileId;
use crate::rules::standard::StandardRules;

verus! {

/// Maps profile ids to their rules.
#[derive(Debug, Clone, Copy, PartialEq, Eq, Structural)]
pub struct RulesRegistry;

impl RulesRegistry {
    /// The rules of a profile.
    pub fn get(id: RulesProfileId) -> (r: Result<StandardRules, Error>)
        ensures
            r is Ok,
    {
        match id {
            RulesProfileId::Standard => Ok(StandardRules),
        }
    }
}

} // verus!
