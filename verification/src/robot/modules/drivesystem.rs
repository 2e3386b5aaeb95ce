//! Drive systems: what a move costs.

use vstd::prelude::*;

use crate::utils::same_name;

verus! {

/// How many moves a drive system of the given kind makes on one tick.
pub open spec fn drive_steps(name: Seq<char>) -> int {
    if name == "basic"@ {
        1
    } else {
        1
    }
}

/// The power that one move with a drive system of the given kind uses.
pub open spec fn drive_power_usage(name: Seq<char>) -> int {
    if name == "basic"@ {
        10
    } else {
        10
    }
}

/// The table of drive system kinds.
pub struct DriveSystemModule {}

impl DriveSystemModule {
    /// How many moves a drive system of the given kind makes on one tick.
    pub fn get_steps(name: &str) -> (n: i32)
        ensures
            n == drive_steps(name@),
    {
        if same_name(name, "basic") {
            1
        } else {
            1
        }
    }

    /// The power that one move with a drive system of the given kind uses.
    pub fn get_power_usage(name: &str) -> (n: i32)
        ensures
            n == drive_power_usage(name@),
    {
        if same_name(name, "basic") {
            10
        } else {
            10
        }
    }
}

} // verus!
