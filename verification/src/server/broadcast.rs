//! What the engine tells those who watch the world.

use vstd::prelude::*;

use crate::grid::grid::GridCell;
use crate::robot::robot::Robot;
use crate::valuable::Valuable;

verus! {

/// Broadcast message of updates to the world
#[derive(Debug)]
pub enum BroadcastMessage {
    InitializerData { id: usize, cells: Vec<GridCell>, robots: Vec<Robot>, valuables: Vec<Valuable> },
    RobotAttacked { attacker_id: i64, target_id: i64 },
    RobotMoved { robot: Robot },
    RobotSpawned { robot: Robot },
    RobotDestroyed { robot_id: i64 },
    RobotExfiltrated { robot_id: i64 },
    ValuableCreated { valuable: Valuable },
    ValuableUpdated { valuable: Valuable },
    ValuableDepleted { valuable_id: i64 },
}

} // verus!
