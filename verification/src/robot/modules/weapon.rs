//! Weapons: reach, damage and cost.

use vstd::prelude::*;
use vstd::string::StringExecFns;

use crate::utils::{pick_one, same_name};
use crate::grid::coords::Coords;

verus! {

/// How many cells a weapon of the given kind reaches.
pub open spec fn weapon_range(name: Seq<char>) -> int {
    if name == "none"@ {
        0
    } else if name == "blaster"@ {
        1
    } else if name == "supreme_blaster"@ {
        2
    } else {
        0
    }
}

/// The field of fire of a weapon of the given kind, in degrees.
pub open spec fn weapon_fov(name: Seq<char>) -> int {
    if name == "none"@ {
        0
    } else if name == "blaster"@ {
        0
    } else if name == "supreme_blaster"@ {
        0
    } else {
        0
    }
}

/// The most damage that one hit with a weapon of the given kind does.
pub open spec fn weapon_max_damage(name: Seq<char>) -> int {
    if name == "none"@ {
        0
    } else if name == "blaster"@ {
        250
    } else if name == "supreme_blaster"@ {
        500
    } else {
        0
    }
}

/// The least damage that one hit with a weapon of the given kind does.
pub open spec fn weapon_min_damage(name: Seq<char>) -> int {
    if name == "none"@ {
        0
    } else if name == "blaster"@ {
        100
    } else if name == "supreme_blaster"@ {
        250
    } else {
        0
    }
}

/// How many ticks a weapon of the given kind rests after a shot.
pub open spec fn weapon_cool_down(name: Seq<char>) -> int {
    if name == "none"@ {
        0
    } else if name == "blaster"@ {
        0
    } else if name == "supreme_blaster"@ {
        0
    } else {
        0
    }
}

/// The power that one shot with a weapon of the given kind uses.
pub open spec fn weapon_power_usage(name: Seq<char>) -> int {
    if name == "none"@ {
        0
    } else if name == "blaster"@ {
        500
    } else if name == "supreme_blaster"@ {
        1000
    } else {
        0
    }
}

/// Whether there is a weapon of the given kind.
pub open spec fn is_weapon_kind(name: Seq<char>) -> bool {
    name == "none"@
        || name == "blaster"@
        || name == "supreme_blaster"@
}

/// The table of weapon kinds.
pub struct WeaponModule {}

impl WeaponModule {
    /// Picks one of the kinds at random.
    pub fn get_random() -> (name: String)
        ensures
            is_weapon_kind(name@),
    {
        let list: Vec<&'static str> = vec!["none", "blaster", "supreme_blaster"];
        match pick_one(&list) {
            Some(picked) => {
                proof {
                    let k = choose|k: int| 0 <= k < list@.len() && list@[k] == picked;
                }
                String::from_str(picked)
            },
            None => String::from_str("none"),
        }
    }

    /// How many cells a weapon of the given kind reaches.
    pub fn get_range(_name: &str) -> (n: i32)
        ensures
            n == weapon_range(_name@),
    {
        if same_name(_name, "none") {
            0
        } else if same_name(_name, "blaster") {
            1
        } else if same_name(_name, "supreme_blaster") {
            2
        } else {
            0
        }
    }

    /// The field of fire of a weapon of the given kind, in degrees.
    pub fn get_fov(_name: &str) -> (n: i32)
        ensures
            n == weapon_fov(_name@),
    {
        if same_name(_name, "none") {
            0
        } else if same_name(_name, "blaster") {
            0
        } else if same_name(_name, "supreme_blaster") {
            0
        } else {
            0
        }
    }

    /// The most damage that one hit with a weapon of the given kind does.
    pub fn get_max_damage(_name: &str) -> (n: i32)
        ensures
            n == weapon_max_damage(_name@),
    {
        if same_name(_name, "none") {
            0
        } else if same_name(_name, "blaster") {
            250
        } else if same_name(_name, "supreme_blaster") {
            500
        } else {
            0
        }
    }

    /// The least damage that one hit with a weapon of the given kind does.
    pub fn get_min_damage(_name: &str) -> (n: i32)
        ensures
            n == weapon_min_damage(_name@),
    {
        if same_name(_name, "none") {
            0
        } else if same_name(_name, "blaster") {
            100
        } else if same_name(_name, "supreme_blaster") {
            250
        } else {
            0
        }
    }

    /// How many ticks a weapon of the given kind rests after a shot.
    pub fn get_cool_down(_name: &str) -> (n: i32)
        ensures
            n == weapon_cool_down(_name@),
    {
        if same_name(_name, "none") {
            0
        } else if same_name(_name, "blaster") {
            0
        } else if same_name(_name, "supreme_blaster") {
            0
        } else {
            0
        }
    }

    /// The power that one shot with a weapon of the given kind uses.
    pub fn get_power_usage(_name: &str) -> (n: i32)
        ensures
            n == weapon_power_usage(_name@),
    {
        if same_name(_name, "none") {
            0
        } else if same_name(_name, "blaster") {
            500
        } else if same_name(_name, "supreme_blaster") {
            1000
        } else {
            0
        }
    }

    /// Whether a target at `coords2` can be hit from `coords1` with a weapon
    /// of the given kind, `bearing` being the bearing of the target for the
    /// one who fires: the target is no farther than the weapon reaches, and
    /// its bearing lies within the weapon's field of fire to either side.
    pub open spec fn spec_in_range(
        name: Seq<char>,
        coords1: Coords,
        coords2: Coords,
        bearing: Option<i32>,
    ) -> bool {
        &&& coords1.distance(coords2) <= weapon_range(name)
        &&& bearing is Some
        &&& -(weapon_fov(name) / 2) <= bearing->0 <= weapon_fov(name) / 2
    }

    /// see if a target @ coords2 is in range of the weapon (_name) given its
    /// bearing from coords1
    pub fn in_range(_name: &str, coords1: &Coords, coords2: &Coords, bearing: Option<i32>) -> (hit:
        bool)
        requires
            coords1.distance(*coords2) <= i32::MAX,
        ensures
            hit == Self::spec_in_range(_name@, *coords1, *coords2, bearing),
    {
        let fov = Self::get_fov(_name);
        let range = Self::get_range(_name);

        // out of range
        if coords1.distance_to(coords2) > range {
            return false;
        }
        match bearing {
            Some(b) => -(fov / 2) <= b && b <= fov / 2,
            None => false,
        }
    }
}

} // verus!
