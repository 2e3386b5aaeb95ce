//! The eight families of modules that a robot is built from, and what each
//! kind of module can do.

pub mod collector;
pub mod drivesystem;
pub mod exfilbeacon;
pub mod hull;
pub mod memory;
pub mod power;
pub mod scanner;
pub mod weapon;

use vstd::prelude::*;

verus! {

/// A collector fitted to a robot.
pub trait CollectorModule {
    fn get_name(&self) -> String;

    fn get_power_usage(&self) -> i32;

    /// how many units can we collect in a tick
    fn get_collection_rate(&self) -> i32;

    fn get_max_collection(&self) -> i32;
}

/// A drive system fitted to a robot.
pub trait DriveSystemModule {
    fn get_name(&self) -> String;

    fn get_steps(&self) -> i32;

    fn get_power_usage(&self) -> i32;
}

/// An exfiltration beacon fitted to a robot.
pub trait ExfilBeaconModule {
    fn get_name(&self) -> String;

    fn get_delay(&self) -> i32;

    fn get_power_usage(&self) -> i32;
}

/// A hull fitted to a robot.
pub trait HullModule {
    fn get_name(&self) -> String;

    fn get_max_strength(&self) -> i32;
}

/// A memory fitted to a robot.
pub trait MemoryModule {
    fn get_name(&self) -> String;

    fn get_memory_size(&self) -> i32;
}

/// A power unit fitted to a robot.
pub trait PowerModule {
    fn get_name(&self) -> String;

    fn get_max_power(&self) -> i32;

    fn get_recharge_rate(&self) -> i32;
}

/// A scanner fitted to a robot.
pub trait ScannerModule {
    fn get_name(&self) -> String;

    fn get_pov(&self) -> i32;

    fn get_range(&self) -> i32;

    fn get_power_usage(&self) -> i32;

    fn get_accuracy(&self) -> i32;
}

/// A weapon fitted to a robot.
pub trait WeaponModule {
    fn get_name(&self) -> String;

    fn get_range(&self) -> i32;

    fn get_max_damage(&self) -> i32;

    fn get_min_damage(&self) -> i32;

    fn get_cool_down(&self) -> i32;

    fn get_power_usage(&self) -> i32;
}

} // verus!
