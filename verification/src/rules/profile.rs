use vstd::prelude::*;
use vstd::string::*;

use crate::text_case::{ascii_lower_seq, to_ascii_lowercase};

verus! {

/// Identifies a ruleset implementation (yaku table, scoring, match flow).
#[derive(Debug, Clone, Copy, PartialEq, Eq, Hash, Structural)]
pub enum RulesProfileId {
    Standard,
}

pub open spec fn profile_name(p: RulesProfileId) -> Seq<char> {
    match p {
        RulesProfileId::Standard => seq!['s', 't', 'a', 'n', 'd', 'a', 'r', 'd'],
    }
}

/// The message for a name that is not a known profile (`other` already lowercased).
pub open spec fn unknown_profile_message(other: Seq<char>) -> Seq<char> {
    seq!['u', 'n', 'k', 'n', 'o', 'w', 'n', ' ', 'r', 'u', 'l', 'e', 's', ' ', 'p', 'r', 'o', 'f',
    'i', 'l', 'e', ' ', '\''] + other + seq!['\'', ' ', '(', 'e', 'x', 'p', 'e', 'c', 't', 'e', 'd',
    ' ', 's', 't', 'a', 'n', 'd', 'a', 'r', 'd', ')']
}

impl RulesProfileId {
    pub fn as_str(self) -> (s: &'static str)
        ensures
            s@ == profile_name(self),
    {
        proof { reveal_strlit("standard"); }
        "standard"
    }

    /// Case-insensitive lookup by name.
    pub fn parse(name: &str) -> (r: Result<RulesProfileId, String>)
        ensures
            ascii_lower_seq(name@) == profile_name(RulesProfileId::Standard) ==> r == Ok::<
                RulesProfileId,
                String,
            >(RulesProfileId::Standard),
            ascii_lower_seq(name@) != profile_name(RulesProfileId::Standard) ==> (r matches Err(
                m,
            ) && m@ == unknown_profile_message(ascii_lower_seq(name@))),
    {
        let lower = to_ascii_lowercase(name);
        let standard = String::from_str("standard");
        proof {
            reveal_strlit("standard");
            assert(standard@ =~= profile_name(RulesProfileId::Standard));
        }
        if lower == standard {
            Ok(RulesProfileId::Standard)
        } else {
            let mut msg = String::from_str("unknown rules profile '");
            msg.append(lower.as_str());
            msg.append("' (expected standard)");
            proof {
                reveal_strlit("unknown rules profile '");
                reveal_strlit("' (expected standard)");
                assert(msg@ =~= unknown_profile_message(ascii_lower_seq(name@)));
            }
            Err(msg)
        }
    }

    /// The next profile in the catalog, wrapping around.
    pub fn next(self) -> (p: RulesProfileId)
        ensures
            p == RulesProfileId::Standard,
    {
        RulesProfileId::Standard
    }
}

} // verus!
