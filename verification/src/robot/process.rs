//! The behaviours of a robot, one of which is active at a time, and what a
//! step of a behaviour can come to.

pub mod collect;
pub mod exfil;
pub mod explode;
pub mod moveproc;
pub mod neutral;
pub mod pursue;
pub mod scan;

use vstd::prelude::*;

use crate::grid::coords::{Coords, Dir};
use crate::robot::process::scan::ScanResults;
use crate::server::Request;

verus! {

/// Message returned from a process run to let robot know what to do next
#[derive(Clone, Debug, PartialEq)]
pub enum ProcessResult {
    /// The process succeeded and should remain the active process
    Okay,
    /// Indicates the process failed
    Fail,
    /// Result of collecting
    Collected(i32, i32),
    /// Indicates not enough power for operation
    OutOfPower,
    /// Result of a scan
    ScannedCells(ScanResults),
    /// Request something from the server
    ServerRequest(Request),
    /// Transition to collect
    TransitionToCollect,
    /// Transition to Exfiltration
    TransitionToExfiltrate,
    /// Transition to Explode
    TransitionToExplode,
    /// Indicate a switch to Flee, which is really a switch to Move but we log it
    TransitionToFlee(Coords, Dir),
    /// Indicate a switch to Move; the last bool means to spin 180 at the end
    TransitionToMove(Coords, Dir, bool),
    /// Transition back to the neutral mode
    TransitionToNeutral,
    /// Transition to pursuit of a robot
    TransitionToPursue(i64),
}

/// List of all the processes
#[derive(Clone, Copy, Debug, PartialEq, Eq, Structural)]
pub enum Processes {
    Collect,
    Exfil,
    Explode,
    Move,
    Neutral,
    Pursue,
    Scan,
}

} // verus!
