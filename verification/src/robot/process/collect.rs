//! Collecting: mining the valuable that the robot stands on.

use vstd::prelude::*;

use crate::grid::coords::Coords;
use crate::grid::grid::Grid;
use crate::robot::modules::collector::{collection_max, collection_rate, CollectorModule};
use crate::robot::process::ProcessResult;
use crate::robot::robot::{Robot, RobotData};
use crate::server::Request;

verus! {

/// How much a robot asks to mine on one tick: what its collector mines on a
/// tick, and no more than the robot can still carry.
pub open spec fn amount_to_mine(robot: &Robot) -> int {
    let rate = collection_rate(robot.modules.m_collector@);
    let room = collection_max(robot.modules.m_collector@) - robot.data.val_inventory;
    if room < rate {
        room
    } else {
        rate
    }
}

/// What a tick of collecting comes to: back to neutral when the robot has
/// mined ten ticks' worth in this run, when it can carry no more, or when
/// no valuable lies under it; else a request to mine.
pub open spec fn collect_step(robot: &Robot, grid: &Grid) -> ProcessResult {
    let rate = collection_rate(robot.modules.m_collector@);
    let max = collection_max(robot.modules.m_collector@);
    if robot.data.mined_amount >= rate * 10 || robot.data.val_inventory == max {
        ProcessResult::TransitionToNeutral
    } else if !grid.valuables_locs@.contains_key(robot.coords()) {
        ProcessResult::TransitionToNeutral
    } else {
        ProcessResult::ServerRequest(
            Request::Mine {
                valuable_id: grid.valuables_locs@[robot.coords()],
                amount: amount_to_mine(robot) as i32,
            },
        )
    }
}

/// The mining of a valuable.
pub struct Collect {}

impl Collect {
    /// Main run of the Collect process
    pub fn run(robot: &mut Robot, grid: &Grid) -> (step: ProcessResult)
        ensures
            *final(robot) == *old(robot),
            step == collect_step(old(robot), grid),
            old(robot).wf() ==> (step matches ProcessResult::ServerRequest(
                Request::Mine { valuable_id, amount },
            ) ==> 0 < amount <= old(robot).data.max_val_inventory - old(robot).data.val_inventory),
    {
        let collection_rate = CollectorModule::get_collection_rate(
            robot.modules.m_collector.as_str(),
        );
        let max_val_inventory = CollectorModule::get_collection_max(
            robot.modules.m_collector.as_str(),
        );

        // if we have mined all we are allowed to mine in a single collection run
        // or we have mined all our collector can carry then
        // we should transition back to neutral
        if robot.data.mined_amount >= collection_rate * 10 || robot.data.val_inventory
            == max_val_inventory {
            return ProcessResult::TransitionToNeutral;
        }
        let room: i64 = max_val_inventory as i64 - robot.data.val_inventory as i64;
        let amount_to_mine: i32 = if room < collection_rate as i64 {
            room as i32
        } else {
            collection_rate
        };

        let valuable = grid.get_valuable_id_by_loc(&Coords { q: robot.data.q, r: robot.data.r });

        // if there is no valuable at this location (maybe depleted?)
        // switch back to neutral process
        match valuable {
            None => ProcessResult::TransitionToNeutral,
            // otherwise, we need to ask the server to mine for us
            Some(id) => ProcessResult::ServerRequest(
                Request::Mine { valuable_id: *id, amount: amount_to_mine },
            ),
        }
    }

    /// initialize this process
    pub fn init(robot: &mut Robot) -> (started: ProcessResult)
        ensures
            started == ProcessResult::Okay,
            *final(robot) == old(robot).with_data(
                RobotData { mined_amount: 0, ..old(robot).data },
            ),
            old(robot).wf() ==> final(robot).wf(),
    {
        robot.start_new_mining_operation();

        return ProcessResult::Okay;
    }
}

} // verus!
