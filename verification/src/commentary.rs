//! Crowd reactions for the live commentary feed.

use vstd::prelude::*;

verus! {

/// The crowd's reaction line for an excitement level.
pub open spec fn crowd_reaction_of(excitement_level: u8) -> Seq<char> {
    if excitement_level <= 2 {
        "*polite golf clap*"@
    } else if excitement_level <= 4 {
        "*interested murmuring*"@
    } else if excitement_level <= 6 {
        "*excited cheering*"@
    } else if excitement_level <= 8 {
        "*standing ovation*"@
    } else if excitement_level <= 10 {
        "*QUANTUM PANDEMONIUM*"@
    } else {
        "*confused quantum superposition*"@
    }
}

/// The crowd reaction for an excitement level from 0 to 10; levels
/// beyond the scale get a puzzled reaction of their own.
pub fn get_crowd_reaction(excitement_level: u8) -> (r: &'static str)
    ensures
        r@ == crowd_reaction_of(excitement_level),
{
    if excitement_level <= 2 {
        "*polite golf clap*"
    } else if excitement_level <= 4 {
        "*interested murmuring*"
    } else if excitement_level <= 6 {
        "*excited cheering*"
    } else if excitement_level <= 8 {
        "*standing ovation*"
    } else if excitement_level <= 10 {
        "*QUANTUM PANDEMONIUM*"
    } else {
        "*confused quantum superposition*"
    }
}

} // verus!
