//! The engine and what robots can ask of it.

pub mod broadcast;
pub mod server;

pub use self::broadcast::BroadcastMessage;
pub use self::server::Server;

use vstd::prelude::*;

verus! {

/// What the engine is set up with.
#[derive(Clone, Copy, Debug, PartialEq, Eq, Structural)]
pub struct ServerConfig {
    /// maximum number of robots to spawn
    pub max_bots: usize,
    /// maximum number of valuables files
    pub max_valuables: usize,
    /// do killed robots drop valuables
    pub no_kill_drops: bool,
    pub debug: bool,
}

/// With each tick, a robot can make a request of the server
#[derive(Clone, Copy, Debug, PartialEq, Eq, Structural)]
pub enum Request {
    /// Request to attack an enemy
    Attack { target_id: i64 },
    /// Request to leave the grid
    Exfiltrate { robot_id: i64 },
    /// Request to explode, leaving behind valuables
    Explode { valuables: i32 },
    /// Request to mine the valuable for a given amount
    Mine { valuable_id: i64, amount: i32 },
}

/// For each server request, the server can respond to the robot
#[derive(Clone, Copy, Debug, PartialEq, Eq, Structural)]
pub enum Response {
    AttackFailed,
    AttackSuccess { target_id: i64, damage: i32 },
    Fail,
    Mined { valuable_id: i64, amount: i32 },
}

} // verus!
