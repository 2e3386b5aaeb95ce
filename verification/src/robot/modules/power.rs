//! Power units: capacity and recharge.

use vstd::prelude::*;
use vstd::string::StringExecFns;

use crate::utils::{pick_one, same_name};

verus! {

/// The most power that a unit of the given kind holds.
pub open spec fn max_power(name: Seq<char>) -> int {
    if name == "basic"@ {
        1000
    } else if name == "plus"@ {
        1500
    } else if name == "foxline"@ {
        3000
    } else {
        1000
    }
}

/// The power that a unit of the given kind gains on one tick.
pub open spec fn recharge_rate(name: Seq<char>) -> int {
    if name == "basic"@ {
        150
    } else if name == "plus"@ {
        300
    } else if name == "foxline"@ {
        1000
    } else {
        150
    }
}

/// Whether there is a power unit of the given kind.
pub open spec fn is_power_kind(name: Seq<char>) -> bool {
    name == "basic"@
        || name == "plus"@
        || name == "foxline"@
}

/// The table of power unit kinds.
pub struct PowerModule {}

impl PowerModule {
    /// Picks one of the kinds at random.
    pub fn get_random() -> (name: String)
        ensures
            is_power_kind(name@),
    {
        let list: Vec<&'static str> = vec!["basic", "plus", "foxline"];
        match pick_one(&list) {
            Some(picked) => {
                proof {
                    let k = choose|k: int| 0 <= k < list@.len() && list@[k] == picked;
                }
                String::from_str(picked)
            },
            None => String::from_str("basic"),
        }
    }

    /// The most power that a unit of the given kind holds.
    pub fn get_max_power(name: &str) -> (n: i32)
        ensures
            n == max_power(name@),
    {
        if same_name(name, "basic") {
            1000
        } else if same_name(name, "plus") {
            1500
        } else if same_name(name, "foxline") {
            3000
        } else {
            1000
        }
    }

    /// The power that a unit of the given kind gains on one tick.
    pub fn get_recharge_rate(name: &str) -> (n: i32)
        ensures
            n == recharge_rate(name@),
    {
        if same_name(name, "basic") {
            150
        } else if same_name(name, "plus") {
            300
        } else if same_name(name, "foxline") {
            1000
        } else {
            150
        }
    }
}

} // verus!
