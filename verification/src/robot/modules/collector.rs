//! Collectors: what mining costs and yields.

use vstd::prelude::*;
use vstd::string::StringExecFns;

use crate::utils::{pick_one, same_name};

verus! {

/// The power that a collector of the given kind uses on one tick of mining.
pub open spec fn collector_power_usage(name: Seq<char>) -> int {
    if name == "basic"@ {
        500
    } else if name == "foxterra"@ {
        1000
    } else if name == "ultratech"@ {
        1500
    } else {
        500
    }
}

/// How many units a collector of the given kind mines on one tick.
pub open spec fn collection_rate(name: Seq<char>) -> int {
    if name == "basic"@ {
        10
    } else if name == "foxterra"@ {
        25
    } else if name == "ultratech"@ {
        50
    } else {
        10
    }
}

/// How many units a collector of the given kind can carry.
pub open spec fn collection_max(name: Seq<char>) -> int {
    if name == "basic"@ {
        200
    } else if name == "foxterra"@ {
        500
    } else if name == "ultratech"@ {
        1000
    } else {
        200
    }
}

/// Whether there is a collector of the given kind.
pub open spec fn is_collector_kind(name: Seq<char>) -> bool {
    name == "basic"@
        || name == "foxterra"@
        || name == "ultratech"@
}

/// The table of collector kinds.
pub struct CollectorModule {}

impl CollectorModule {
    /// Picks one of the kinds at random.
    pub fn get_random() -> (name: String)
        ensures
            is_collector_kind(name@),
    {
        let list: Vec<&'static str> = vec!["basic", "foxterra", "ultratech"];
        match pick_one(&list) {
            Some(picked) => {
                proof {
                    let k = choose|k: int| 0 <= k < list@.len() && list@[k] == picked;
                }
                String::from_str(picked)
            },
            None => String::from_str("basic"),
        }
    }

    /// The power that a collector of the given kind uses on one tick of mining.
    pub fn get_power_usage(_name: &str) -> (n: i32)
        ensures
            n == collector_power_usage(_name@),
    {
        if same_name(_name, "basic") {
            500
        } else if same_name(_name, "foxterra") {
            1000
        } else if same_name(_name, "ultratech") {
            1500
        } else {
            500
        }
    }

    /// How many units a collector of the given kind mines on one tick.
    pub fn get_collection_rate(_name: &str) -> (n: i32)
        ensures
            n == collection_rate(_name@),
    {
        if same_name(_name, "basic") {
            10
        } else if same_name(_name, "foxterra") {
            25
        } else if same_name(_name, "ultratech") {
            50
        } else {
            10
        }
    }

    /// How many units a collector of the given kind can carry.
    pub fn get_collection_max(_name: &str) -> (n: i32)
        ensures
            n == collection_max(_name@),
    {
        if same_name(_name, "basic") {
            200
        } else if same_name(_name, "foxterra") {
            500
        } else if same_name(_name, "ultratech") {
            1000
        } else {
            200
        }
    }
}

} // verus!
