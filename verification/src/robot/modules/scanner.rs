//! Scanners: field of view, range, cost and accuracy.

use vstd::prelude::*;
use vstd::string::StringExecFns;

use crate::utils::{pick_one, same_name};

verus! {

/// The field of view of a scanner of the given kind, in degrees.
pub open spec fn scanner_fov(name: Seq<char>) -> int {
    if name == "basic"@ {
        0
    } else if name == "plus"@ {
        0
    } else if name == "triscan"@ {
        120
    } else if name == "triscan_advanced"@ {
        120
    } else if name == "triscan_ultra"@ {
        120
    } else if name == "boxium_starter"@ {
        240
    } else if name == "boxium_advanced"@ {
        240
    } else if name == "boxium_ultra"@ {
        240
    } else if name == "omni_basic"@ {
        360
    } else if name == "omni_ultra"@ {
        360
    } else {
        0
    }
}

/// How many rings a scanner of the given kind sees.
pub open spec fn scanner_range(name: Seq<char>) -> int {
    if name == "basic"@ {
        1
    } else if name == "plus"@ {
        2
    } else if name == "triscan"@ {
        1
    } else if name == "triscan_advanced"@ {
        2
    } else if name == "triscan_ultra"@ {
        3
    } else if name == "boxium_starter"@ {
        1
    } else if name == "boxium_advanced"@ {
        2
    } else if name == "boxium_ultra"@ {
        3
    } else if name == "omni_basic"@ {
        2
    } else if name == "omni_ultra"@ {
        4
    } else {
        0
    }
}

/// The power that one scan with a scanner of the given kind uses.
pub open spec fn scanner_power_usage(name: Seq<char>) -> int {
    if name == "basic"@ {
        20
    } else if name == "plus"@ {
        30
    } else if name == "triscan"@ {
        60
    } else if name == "triscan_advanced"@ {
        80
    } else if name == "triscan_ultra"@ {
        120
    } else if name == "boxium_starter"@ {
        250
    } else if name == "boxium_advanced"@ {
        350
    } else if name == "boxium_ultra"@ {
        1000
    } else if name == "omni_basic"@ {
        500
    } else if name == "omni_ultra"@ {
        2000
    } else {
        0
    }
}

/// How often, in percent, a scanner of the given kind tells another robot's strength.
pub open spec fn scanner_accuracy(name: Seq<char>) -> int {
    if name == "basic"@ {
        100
    } else if name == "plus"@ {
        100
    } else if name == "triscan"@ {
        75
    } else if name == "triscan_advanced"@ {
        75
    } else if name == "triscan_ultra"@ {
        50
    } else if name == "boxium_starter"@ {
        80
    } else if name == "boxium_advanced"@ {
        80
    } else if name == "boxium_ultra"@ {
        80
    } else if name == "omni_basic"@ {
        0
    } else if name == "omni_ultra"@ {
        0
    } else {
        0
    }
}

/// Whether there is a scanner of the given kind.
pub open spec fn is_scanner_kind(name: Seq<char>) -> bool {
    name == "basic"@
        || name == "plus"@
        || name == "triscan"@
        || name == "triscan_advanced"@
        || name == "triscan_ultra"@
        || name == "boxium_starter"@
        || name == "boxium_advanced"@
        || name == "boxium_ultra"@
        || name == "omni_basic"@
        || name == "omni_ultra"@
}

/// The table of scanner kinds.
pub struct ScannerModule {}

impl ScannerModule {
    /// Picks one of the kinds at random.
    pub fn get_random() -> (name: String)
        ensures
            is_scanner_kind(name@),
    {
        let list: Vec<&'static str> = vec!["basic", "plus", "triscan", "triscan_advanced", "triscan_ultra", "boxium_starter", "boxium_advanced", "boxium_ultra", "omni_basic", "omni_ultra"];
        match pick_one(&list) {
            Some(picked) => {
                proof {
                    let k = choose|k: int| 0 <= k < list@.len() && list@[k] == picked;
                }
                String::from_str(picked)
            },
            None => String::from_str("basic"),
        }
    }

    /// The field of view of a scanner of the given kind, in degrees.
    pub fn get_fov(name: &str) -> (n: i32)
        ensures
            n == scanner_fov(name@),
    {
        if same_name(name, "basic") {
            0
        } else if same_name(name, "plus") {
            0
        } else if same_name(name, "triscan") {
            120
        } else if same_name(name, "triscan_advanced") {
            120
        } else if same_name(name, "triscan_ultra") {
            120
        } else if same_name(name, "boxium_starter") {
            240
        } else if same_name(name, "boxium_advanced") {
            240
        } else if same_name(name, "boxium_ultra") {
            240
        } else if same_name(name, "omni_basic") {
            360
        } else if same_name(name, "omni_ultra") {
            360
        } else {
            0
        }
    }

    /// How many rings a scanner of the given kind sees.
    pub fn get_range(name: &str) -> (n: i32)
        ensures
            n == scanner_range(name@),
    {
        if same_name(name, "basic") {
            1
        } else if same_name(name, "plus") {
            2
        } else if same_name(name, "triscan") {
            1
        } else if same_name(name, "triscan_advanced") {
            2
        } else if same_name(name, "triscan_ultra") {
            3
        } else if same_name(name, "boxium_starter") {
            1
        } else if same_name(name, "boxium_advanced") {
            2
        } else if same_name(name, "boxium_ultra") {
            3
        } else if same_name(name, "omni_basic") {
            2
        } else if same_name(name, "omni_ultra") {
            4
        } else {
            0
        }
    }

    /// The power that one scan with a scanner of the given kind uses.
    pub fn get_power_usage(name: &str) -> (n: i32)
        ensures
            n == scanner_power_usage(name@),
    {
        if same_name(name, "basic") {
            20
        } else if same_name(name, "plus") {
            30
        } else if same_name(name, "triscan") {
            60
        } else if same_name(name, "triscan_advanced") {
            80
        } else if same_name(name, "triscan_ultra") {
            120
        } else if same_name(name, "boxium_starter") {
            250
        } else if same_name(name, "boxium_advanced") {
            350
        } else if same_name(name, "boxium_ultra") {
            1000
        } else if same_name(name, "omni_basic") {
            500
        } else if same_name(name, "omni_ultra") {
            2000
        } else {
            0
        }
    }

    /// How often, in percent, a scanner of the given kind tells another robot's strength.
    pub fn get_accuracy(name: &str) -> (n: i32)
        ensures
            n == scanner_accuracy(name@),
    {
        if same_name(name, "basic") {
            100
        } else if same_name(name, "plus") {
            100
        } else if same_name(name, "triscan") {
            75
        } else if same_name(name, "triscan_advanced") {
            75
        } else if same_name(name, "triscan_ultra") {
            50
        } else if same_name(name, "boxium_starter") {
            80
        } else if same_name(name, "boxium_advanced") {
            80
        } else if same_name(name, "boxium_ultra") {
            80
        } else if same_name(name, "omni_basic") {
            0
        } else if same_name(name, "omni_ultra") {
            0
        } else {
            0
        }
    }
}

} // verus!
