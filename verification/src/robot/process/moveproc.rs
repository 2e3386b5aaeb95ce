//! Moving: following the queue of moves that leads to a goal.

use vstd::prelude::*;

use crate::grid::coords::{Coords, Dir};
use crate::grid::grid::{cells_consistent, Grid};
use crate::grid::utils::traversal::{
    find_path, find_spin, follows_a_way, planned_moves, reachable, spin_moves,
};
use crate::robot::modules::drivesystem::{drive_power_usage, DriveSystemModule};
use crate::robot::behaviors::responded;
use crate::robot::modules::scanner::scanner_power_usage;
use crate::robot::process::neutral::response_of;
use crate::robot::process::scan::Scan;
use crate::robot::process::ProcessResult;
use crate::robot::robot::{
    fleeing_status, fleeing_text, moving_status, moving_text, status_after, Robot, RobotData,
};

verus! {

/// Where a message sends a robot and how the robot is to face there, if the
/// message sends it anywhere.
pub open spec fn move_goal(message: Option<ProcessResult>) -> Option<(Coords, Dir)> {
    match message {
        Some(ProcessResult::TransitionToMove(tc, o, _)) => Some((tc, o)),
        Some(ProcessResult::TransitionToFlee(tc, o)) => Some((tc, o)),
        _ => None,
    }
}

/// The status that a message to move gives a robot.
pub open spec fn move_status_text(message: Option<ProcessResult>) -> Seq<char> {
    match message {
        Some(ProcessResult::TransitionToMove(tc, _, _)) => moving_text(tc),
        Some(ProcessResult::TransitionToFlee(tc, _)) => fleeing_text(tc),
        _ => Seq::empty(),
    }
}

/// What a step of a robot on the move can come to.
pub open spec fn is_move_outcome(step: ProcessResult) -> bool {
    match step {
        ProcessResult::Okay => true,
        ProcessResult::OutOfPower => true,
        ProcessResult::TransitionToNeutral => true,
        ProcessResult::TransitionToFlee(_, _) => true,
        ProcessResult::TransitionToPursue(_) => true,
        _ => false,
    }
}

/// What the start of a move makes of a robot, for the message that asks for
/// the move: only the robot's status and its queue of moves change. A
/// message that names no goal starts nothing. Else the status tells of the
/// goal. Where the goal is the robot's own cell, the robot is to turn to
/// the facing asked for. Where the robot can plan a way to the goal, it is
/// to follow the way that its search comes to. Where it cannot, the start
/// fails, and the robot has no moves to make.
pub open spec fn set_out(
    before: &Robot,
    after: &Robot,
    grid: &Grid,
    message: Option<ProcessResult>,
    started: ProcessResult,
) -> bool {
    &&& after.known_cells == before.known_cells
    &&& after.visible_others == before.visible_others
    &&& after.visible_valuables == before.visible_valuables
    &&& after.active_process == before.active_process
    &&& after.modules == before.modules
    &&& after.clock == before.clock
    &&& after.data == (RobotData { status_text: after.data.status_text, ..before.data })
    &&& match move_goal(message) {
        None => {
            &&& started == ProcessResult::Fail
            &&& after.movement_queue is None
            &&& after.data == before.data
        },
        Some((tc, o)) => {
            &&& after.data.status_text@ == status_after(
                before.data.status_text@,
                move_status_text(message),
            )
            &&& if tc == before.coords() {
                &&& started == ProcessResult::Okay
                &&& after.movement_queue is Some
                &&& after.movement_queue->0@ == spin_moves(before.data.orientation, o)
            } else if reachable(before.planning_cells(grid, tc, false), before.coords(), tc) {
                &&& started == ProcessResult::Okay
                &&& after.movement_queue is Some
                &&& follows_a_way(
                    before.planning_cells(grid, tc, false),
                    before.coords(),
                    before.data.orientation,
                    tc,
                    after.movement_queue->0@,
                )
                &&& planned_moves(
                    before.planning_cells(grid, tc, false),
                    before.coords(),
                    before.data.orientation,
                    tc,
                    after.movement_queue->0@,
                )
            } else {
                &&& started == ProcessResult::Fail
                &&& after.movement_queue is None
            }
        },
    }
}

/// What a tick on the move makes of a robot: a robot that cannot pay for
/// the move does nothing; any other does what a robot does that can.
pub open spec fn move_tick(
    before: &Robot,
    after: &Robot,
    grid_before: &Grid,
    grid_after: &Grid,
    step: ProcessResult,
) -> bool {
    if before.data.power < drive_power_usage(before.modules.m_drivesystem@) {
        step == ProcessResult::OutOfPower && *after == *before && *grid_after == *grid_before
    } else {
        drove(before, after, grid_before, grid_after, step)
    }
}

/// Whether a robot has moves left in its queue.
pub open spec fn moves_left(robot: &Robot) -> bool {
    robot.movement_queue is Some && robot.movement_queue->0@.len() > 0
}

/// What a tick on the move makes of a robot that can pay for the move, with
/// the robot as it was before and as it is after. The robot pays and makes
/// its next move. Where it cannot move, it goes back to neutral. Else it
/// looks round, if it has the power for that, and answers to the robots in
/// view; where it has no answer to give, it moves on if it has moves left
/// and goes back to neutral if it has none.
pub open spec fn drove(
    before: &Robot,
    after: &Robot,
    grid_before: &Grid,
    grid_after: &Grid,
    step: ProcessResult,
) -> bool {
    let paid = before.with_data(
        RobotData {
            power: (before.data.power - drive_power_usage(before.modules.m_drivesystem@)) as i32,
            ..before.data
        },
    );
    let moved = Robot {
        data: RobotData {
            power: paid.data.power,
            status_text: before.data.status_text,
            ..after.data
        },
        known_cells: before.known_cells,
        visible_others: before.visible_others,
        visible_valuables: before.visible_valuables,
        clock: before.clock,
        ..*after
    };
    let seen = after.with_data(
        RobotData { status_text: before.data.status_text, ..after.data },
    );
    &&& paid.made_move(&moved, grid_before, grid_after)
    &&& if !paid.can_move(grid_before) {
        step == ProcessResult::TransitionToNeutral && *after == moved
    } else if moved.data.power < scanner_power_usage(moved.modules.m_scanner@) {
        step == ProcessResult::OutOfPower && *after == moved
    } else {
        &&& Scan::saw(&moved, &seen, grid_after)
        &&& responded(&seen, after, grid_after, response_of(step))
        &&& response_of(step) is None ==> step == (if moves_left(after) {
            ProcessResult::Okay
        } else {
            ProcessResult::TransitionToNeutral
        })
    }
}

/// The "Move" process involves a movement queue of moves
pub struct Move {}

impl Move {
    /// One tick on the move: the robot pays for the move and makes the next
    /// move of its queue, then looks round and answers to what it sees. It
    /// goes back to neutral when the move fails or the queue is used up.
    pub fn run(robot: &mut Robot, grid: &mut Grid) -> (step: ProcessResult)
        requires
            old(robot).wf(),
            old(grid).wf(),
        ensures
            final(robot).wf(),
            final(grid).wf(),
            final(grid).cells@ == old(grid).cells@,
            final(grid).valuables_locs@ == old(grid).valuables_locs@,
            final(grid).cell_list() == old(grid).cell_list(),
            final(grid).guess() == old(grid).guess(),
            old(robot).steady(final(robot)),
            old(robot).stepped(final(robot), old(grid), final(grid)),
            final(robot).active_process == old(robot).active_process,
            final(robot).data.mined_amount == old(robot).data.mined_amount,
            final(robot).data.exfil_countdown == old(robot).data.exfil_countdown,
            final(robot).data.pursuit_id == old(robot).data.pursuit_id,
            final(robot).data.power <= old(robot).data.power,
            is_move_outcome(step),
            move_tick(old(robot), final(robot), old(grid), final(grid), step),
            step == ProcessResult::Okay ==> final(robot).movement_queue is Some && final(robot).movement_queue->0@.len() > 0,
            old(robot).data.power < drive_power_usage(old(robot).modules.m_drivesystem@) ==> step
                == ProcessResult::OutOfPower && *final(robot) == *old(robot) && *final(grid)
                == *old(grid),
            old(robot).data.power >= drive_power_usage(old(robot).modules.m_drivesystem@) && (match old(robot).movement_queue {
                None => true,
                Some(queue) => queue@.len() == 0,
            }) ==> step == ProcessResult::TransitionToNeutral && final(robot).movement_queue
                is None && final(robot).coords() == old(robot).coords() && *final(grid) == *old(grid),
    {
        // make sure we have enough power to run the drive
        let power_need = DriveSystemModule::get_power_usage(robot.modules.m_drivesystem.as_str());
        if robot.data.power < power_need {
            return ProcessResult::OutOfPower;
        }
        robot.use_power(power_need);

        // Take the next move based on the drive system
        if let ProcessResult::Fail = robot.move_robot(grid) {
            return ProcessResult::TransitionToNeutral;
        }
        // we scan only so we can react to other robots

        let scan_results = Scan::run(robot, grid);
        if let ProcessResult::OutOfPower = scan_results {
            return ProcessResult::OutOfPower;
        }
        if let Some(response) = robot.respond_to_others(grid) {
            return response;
        }
        // if we are out of moves, switch to neutral

        let moves_left: bool = match &robot.movement_queue {
            Some(queue) => queue.len() > 0,
            None => false,
        };
        if !moves_left {
            return ProcessResult::TransitionToNeutral;
        } else {
            return ProcessResult::Okay;
        }
    }

    /// Plans the way that a message asks for. Where the goal is the robot's
    /// own cell the robot only turns to the facing asked for; else it
    /// follows a way to the goal over the cells it knows, and the start
    /// fails where there is none.
    pub fn init(robot: &mut Robot, grid: &Grid, message: Option<ProcessResult>) -> (started:
        ProcessResult)
        requires
            cells_consistent(grid.cells@),
        ensures
            set_out(old(robot), final(robot), grid, message, started),
    {
        robot.movement_queue = None;

        let robot_coords = Coords { q: robot.data.q, r: robot.data.r };

        let target_coords: Coords;
        let orientation: Dir;

        // We have to get a message containing the process result of a process
        // that decided we must move
        match message {
            Some(ProcessResult::TransitionToMove(tc, o, _)) => {
                target_coords = tc;
                orientation = o;
                let status = moving_status(tc);
                robot.set_status_text(status.as_str());
            },
            Some(ProcessResult::TransitionToFlee(tc, o)) => {
                target_coords = tc;
                orientation = o;
                let status = fleeing_status(tc);
                robot.set_status_text(status.as_str());
            },
            _ => {
                return ProcessResult::Fail;
            },
        }

        if target_coords.q == robot_coords.q && target_coords.r == robot_coords.r {
            robot.movement_queue = Some(find_spin(robot.data.orientation, orientation));
        } else {
            let moves = find_path(robot, grid, target_coords, false);
            match moves {
                Ok(path_queue) => {
                    robot.movement_queue = Some(path_queue);
                },
                Err(_) => {
                    return ProcessResult::Fail;
                },
            }
        }

        ProcessResult::Okay
    }
}

} // verus!
