//! Exfiltration: calling for extraction and waiting for it.

use vstd::prelude::*;

use crate::robot::modules::exfilbeacon::exfil_delay;
use crate::robot::process::ProcessResult;
use crate::robot::robot::{status_after, text_with_number, Robot, RobotData};
use crate::server::Request;
use crate::utils::decimal_text;

verus! {

/// The status of a robot that waits for extraction.
pub open spec fn countdown_text(countdown: i32) -> Seq<char> {
    "I'm calling for exfiltration in ... "@ + decimal_text(countdown as int)
}

/// What a tick of waiting for extraction makes of a robot: the countdown
/// goes down by one, the status tells it, and when it comes to nothing the
/// robot asks to be taken off the grid.
pub open spec fn waited(before: &Robot, after: &Robot, step: ProcessResult) -> bool {
    &&& after.data.exfil_countdown == Robot::counted_down(before.data.exfil_countdown)
    &&& after.data.status_text@ == status_after(
        before.data.status_text@,
        countdown_text(after.data.exfil_countdown),
    )
    &&& *after == before.with_data(
        RobotData {
            exfil_countdown: after.data.exfil_countdown,
            status_text: after.data.status_text,
            ..before.data
        },
    )
    &&& step == (if after.data.exfil_countdown == 0 {
        ProcessResult::ServerRequest(Request::Exfiltrate { robot_id: before.data.id })
    } else {
        ProcessResult::Okay
    })
}

/// What the start of a call for extraction makes of a robot: the status
/// tells of the call, and the countdown is set to the delay of the robot's
/// beacon.
pub open spec fn called(before: &Robot, after: &Robot) -> bool {
    &&& after.data.status_text@ == status_after(
        before.data.status_text@,
        "I'm calling for exfiltration."@,
    )
    &&& *after == before.with_data(
        RobotData {
            exfil_countdown: exfil_delay(before.modules.m_exfilbeacon@) as i32,
            status_text: after.data.status_text,
            ..before.data
        },
    )
}

/// The call for extraction.
pub struct Exfil {}

impl Exfil {
    /// One tick of waiting: the countdown goes down by one, and when it
    /// comes to nothing the robot asks to be taken off the grid.
    pub fn run(robot: &mut Robot) -> (step: ProcessResult)
        ensures
            waited(old(robot), final(robot), step),
            old(robot).wf() ==> final(robot).wf(),
    {
        robot.tick_exfil_countdown();

        let status = text_with_number(
            "I'm calling for exfiltration in ... ",
            robot.data.exfil_countdown as i64,
            "",
        );
        proof {
            reveal_strlit("");
            assert(status@ =~= countdown_text(robot.data.exfil_countdown));
        }
        robot.set_status_text(status.as_str());

        if robot.data.exfil_countdown == 0 {
            ProcessResult::ServerRequest(Request::Exfiltrate { robot_id: robot.data.id })
        } else {
            ProcessResult::Okay
        }
    }

    /// Starts the call: the countdown is set to the delay of the robot's
    /// beacon.
    pub fn init(robot: &mut Robot) -> (started: ProcessResult)
        ensures
            started == ProcessResult::Okay,
            called(old(robot), final(robot)),
            old(robot).wf() ==> final(robot).wf(),
    {
        robot.set_status_text("I'm calling for exfiltration.");
        robot.start_exfil_countdown();

        return ProcessResult::Okay;
    }
}

} // verus!
