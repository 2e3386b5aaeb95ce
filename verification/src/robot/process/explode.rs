//! Exploding: the end of a robot whose hull is gone.

use vstd::prelude::*;

use crate::robot::modules::power::{max_power, PowerModule};
use crate::robot::process::ProcessResult;
use crate::robot::robot::{status_after, Robot, RobotData};
use crate::server::Request;

verus! {

/// What a robot leaves behind when it explodes: what it carries, and what
/// its power unit holds when full.
pub open spec fn drop_value(robot: &Robot) -> int {
    robot.data.val_inventory + max_power(robot.modules.m_power@)
}

/// What an explosion makes of a robot: the status tells of its end, and the
/// robot asks to be destroyed and says what it leaves behind.
pub open spec fn blew_up(before: &Robot, after: &Robot, step: ProcessResult) -> bool {
    &&& after.data.status_text@ == status_after(before.data.status_text@, "I'm dead!"@)
    &&& *after == before.with_data(
        RobotData { status_text: after.data.status_text, ..before.data },
    )
    &&& step == ProcessResult::ServerRequest(
        Request::Explode { valuables: drop_value(before) as i32 },
    )
}

/// The explosion of a robot.
pub struct Explode {}

impl Explode {
    /// The robot asks to be destroyed and says what it leaves behind.
    pub fn run(robot: &mut Robot) -> (step: ProcessResult)
        requires
            drop_value(old(robot)) <= i32::MAX,
        ensures
            blew_up(old(robot), final(robot), step),
    {
        robot.set_status_text("I'm dead!");

        let mut value: i32 = robot.data.val_inventory;
        value = value + PowerModule::get_max_power(robot.modules.m_power.as_str());

        ProcessResult::ServerRequest(Request::Explode { valuables: value })
    }

    /// An explosion needs no preparation.
    pub fn init(robot: &mut Robot) -> (started: ProcessResult)
        ensures
            started == ProcessResult::Okay,
            *final(robot) == *old(robot),
    {
        return ProcessResult::Okay;
    }
}

} // verus!
