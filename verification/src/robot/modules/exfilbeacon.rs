//! Exfiltration beacons: how long extraction takes.

use vstd::prelude::*;

use crate::utils::same_name;

verus! {

/// How many ticks pass between the call of a beacon of the given kind and the extraction.
pub open spec fn exfil_delay(name: Seq<char>) -> int {
    if name == "basic"@ {
        10
    } else {
        10
    }
}

/// The power that a call with a beacon of the given kind uses.
pub open spec fn exfil_power_usage(name: Seq<char>) -> int {
    if name == "basic"@ {
        0
    } else {
        0
    }
}

/// The table of beacon kinds.
pub struct ExfilBeaconModule {}

impl ExfilBeaconModule {
    /// How many ticks pass between the call of a beacon of the given kind and the extraction.
    pub fn get_delay(name: &str) -> (n: i32)
        ensures
            n == exfil_delay(name@),
    {
        if same_name(name, "basic") {
            10
        } else {
            10
        }
    }

    /// The power that a call with a beacon of the given kind uses.
    pub fn get_power_usage(name: &str) -> (n: i32)
        ensures
            n == exfil_power_usage(name@),
    {
        if same_name(name, "basic") {
            0
        } else {
            0
        }
    }
}

} // verus!
