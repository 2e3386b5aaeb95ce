//! Robots: their state, their modules and their behaviour.

pub mod behaviors;
pub mod control;
pub mod modules;
pub mod process;
pub mod robot;

pub use self::process::{ProcessResult, Processes};
pub use self::robot::{Robot, RobotData, RobotKnownCell, RobotModules};
