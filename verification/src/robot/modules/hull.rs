//! Hulls: how much damage a robot takes.

use vstd::prelude::*;

use crate::utils::same_name;

verus! {

/// The strength of an undamaged hull of the given kind.
pub open spec fn hull_max_strength(name: Seq<char>) -> int {
    if name == "basic"@ {
        1000
    } else {
        1000
    }
}

/// The table of hull kinds.
pub struct HullModule {}

impl HullModule {
    /// The strength of an undamaged hull of the given kind.
    pub fn get_max_strength(name: &str) -> (n: i32)
        ensures
            n == hull_max_strength(name@),
    {
        if same_name(name, "basic") {
            1000
        } else {
            1000
        }
    }
}

} // verus!
