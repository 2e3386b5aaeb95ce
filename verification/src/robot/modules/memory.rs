//! Memories: how many cells a robot can know.

use vstd::prelude::*;

use crate::utils::same_name;

verus! {

/// How many cells a memory of the given kind holds.
pub open spec fn memory_size(name: Seq<char>) -> int {
    if name == "basic"@ {
        20
    } else if name == "plus"@ {
        30
    } else if name == "ikito"@ {
        40
    } else if name == "jindai"@ {
        80
    } else {
        20
    }
}

/// The table of memory kinds.
pub struct MemoryModule {}

impl MemoryModule {
    /// How many cells a memory of the given kind holds.
    pub fn get_memory_size(name: &str) -> (n: usize)
        ensures
            n == memory_size(name@),
    {
        if same_name(name, "basic") {
            20
        } else if same_name(name, "plus") {
            30
        } else if same_name(name, "ikito") {
            40
        } else if same_name(name, "jindai") {
            80
        } else {
            20
        }
    }
}

} // verus!
