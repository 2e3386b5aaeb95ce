//! Pursuit: going after another robot.

use vstd::prelude::*;

use crate::grid::coords::{Coords, Dir};
use crate::grid::grid::{cells_consistent, Grid};
use crate::grid::utils::traversal::{
    find_path, follows_a_way, planned_moves, reachable, MoveStep,
};
use crate::robot::modules::drivesystem::{drive_power_usage, DriveSystemModule};
use crate::robot::modules::scanner::scanner_power_usage;
use crate::robot::modules::weapon::WeaponModule;
use crate::robot::process::scan::{Scan, VisibleRobot};
use crate::robot::process::ProcessResult;
use crate::robot::robot::{status_after, text_with_number, Robot, RobotData};
use crate::utils::{bearing, decimal_text, get_bearing};

verus! {

/// Where the last robot of a list with the given id stands.
pub open spec fn last_seen_at(others: Seq<VisibleRobot>, id: i64) -> Option<Coords>
    decreases others.len(),
{
    if others.len() == 0 {
        None
    } else if others.last().robot_id == id {
        Some(others.last().coords)
    } else {
        last_seen_at(others.drop_last(), id)
    }
}

/// The status of a robot that starts a pursuit.
pub open spec fn pursuing_text(id: i64) -> Seq<char> {
    "I'm pursuing Robot "@ + decimal_text(id as int) + "."@
}

/// The status of a robot that has its target before its weapon.
pub open spec fn would_fire_text(id: i64) -> Seq<char> {
    "I would fire on "@ + decimal_text(id as int)
}

/// Where the robot last knew the robot that it pursues.
pub open spec fn last_known(robot: &Robot) -> Coords {
    Coords { q: robot.data.pursuit_last_q, r: robot.data.pursuit_last_r }
}

/// Whether a robot has a way to where it last knew the robot that it
/// pursues.
pub open spec fn has_way_to_last_known(robot: &Robot, grid: &Grid) -> bool {
    reachable(
        robot.planning_cells(grid, last_known(robot), true),
        robot.coords(),
        last_known(robot),
    )
}

/// Whether `planned` is the robot `before` with the moves that lead to
/// where it last knew the robot that it pursues.
pub open spec fn planned_pursuit(before: &Robot, planned: &Robot, grid: &Grid) -> bool {
    &&& *planned == (Robot { movement_queue: planned.movement_queue, ..*before })
    &&& planned.movement_queue is Some
    &&& planned_moves(
        before.planning_cells(grid, last_known(before), true),
        before.coords(),
        before.data.orientation,
        last_known(before),
        planned.movement_queue->0@,
    )
}

/// Whether a robot that stood at `from` has the robot at `latest` before
/// its weapon, the other being seen under the planar angle `target_angle`.
pub open spec fn would_fire(
    robot: &Robot,
    from: Coords,
    latest: Coords,
    target_angle: Option<i32>,
) -> bool {
    from.distance(latest) <= i32::MAX && WeaponModule::spec_in_range(
        robot.modules.m_weapons@,
        from,
        latest,
        match target_angle {
            Some(angle) => Some(bearing(robot.data.orientation, angle as int) as i32),
            None => None,
        },
    )
}

/// What a tick of pursuit makes of a robot that has planned its way and can
/// pay for a move, with the robot as it had planned and as it is after.
/// The robot pays and tries its next move. Then it looks round, if it has
/// the power for that. Where it does not see the other, it goes to where
/// it last knew the other. Where it sees the other, it notes where, and
/// says so when it has the other before its weapon.
pub open spec fn chased(
    before: &Robot,
    after: &Robot,
    grid_before: &Grid,
    grid_after: &Grid,
    target_angle: Option<i32>,
    step: ProcessResult,
) -> bool {
    let paid = before.with_data(
        RobotData {
            power: (before.data.power - drive_power_usage(before.modules.m_drivesystem@)) as i32,
            ..before.data
        },
    );
    let moved = Robot {
        data: RobotData {
            power: paid.data.power,
            status_text: before.data.status_text,
            pursuit_last_q: before.data.pursuit_last_q,
            pursuit_last_r: before.data.pursuit_last_r,
            ..after.data
        },
        known_cells: before.known_cells,
        visible_others: before.visible_others,
        visible_valuables: before.visible_valuables,
        clock: before.clock,
        ..*after
    };
    let seen = after.with_data(
        RobotData {
            status_text: before.data.status_text,
            pursuit_last_q: before.data.pursuit_last_q,
            pursuit_last_r: before.data.pursuit_last_r,
            ..after.data
        },
    );
    &&& paid.made_move(&moved, grid_before, grid_after)
    &&& if moved.data.power < scanner_power_usage(moved.modules.m_scanner@) {
        step == ProcessResult::OutOfPower && *after == moved
    } else {
        &&& Scan::saw(&moved, &seen, grid_after)
        &&& match last_seen_at(seen.visible_others@, before.data.pursuit_id) {
            None => {
                &&& step matches ProcessResult::TransitionToMove(to, _, spin)
                &&& to == last_known(before)
                &&& !spin
                &&& *after == seen
            },
            Some(latest) => {
                &&& step == ProcessResult::Okay
                &&& *after == seen.with_data(
                    RobotData {
                        pursuit_last_q: latest.q,
                        pursuit_last_r: latest.r,
                        status_text: after.data.status_text,
                        ..seen.data
                    },
                )
                &&& if would_fire(&seen, before.coords(), latest, target_angle) {
                    after.data.status_text@ == status_after(
                        before.data.status_text@,
                        would_fire_text(before.data.pursuit_id),
                    )
                } else {
                    after.data.status_text == before.data.status_text
                }
            },
        }
    }
}

/// What the start of a pursuit makes of a robot, for the message that asks
/// for it. A message that names nobody to pursue starts nothing. Else the
/// status tells of the pursuit. Where the robot sees the other and can plan
/// a way to it, it is to follow the way that its search comes to, and
/// notes whom it pursues and where. Where it does not, the start fails,
/// and the robot has no moves to make.
pub open spec fn pursuit_started(
    before: &Robot,
    after: &Robot,
    grid: &Grid,
    message: Option<ProcessResult>,
    started: ProcessResult,
) -> bool {
    &&& after.known_cells == before.known_cells
    &&& after.visible_others == before.visible_others
    &&& after.visible_valuables == before.visible_valuables
    &&& after.active_process == before.active_process
    &&& after.modules == before.modules
    &&& after.clock == before.clock
    &&& match message {
        Some(ProcessResult::TransitionToPursue(id)) => {
            &&& after.data.status_text@ == status_after(
                before.data.status_text@,
                pursuing_text(id),
            )
            &&& match last_seen_at(before.visible_others@, id) {
                Some(tc) => if reachable(
                    before.planning_cells(grid, tc, true),
                    before.coords(),
                    tc,
                ) {
                    &&& started == ProcessResult::Okay
                    &&& after.movement_queue is Some
                    &&& follows_a_way(
                        before.planning_cells(grid, tc, true),
                        before.coords(),
                        before.data.orientation,
                        tc,
                        after.movement_queue->0@,
                    )
                    &&& planned_moves(
                        before.planning_cells(grid, tc, true),
                        before.coords(),
                        before.data.orientation,
                        tc,
                        after.movement_queue->0@,
                    )
                    &&& after.data == (RobotData {
                        status_text: after.data.status_text,
                        pursuit_id: id,
                        pursuit_last_q: tc.q,
                        pursuit_last_r: tc.r,
                        ..before.data
                    })
                } else {
                    &&& started == ProcessResult::Fail
                    &&& after.movement_queue is None
                    &&& after.data == (RobotData {
                        status_text: after.data.status_text,
                        ..before.data
                    })
                },
                None => {
                    &&& started == ProcessResult::Fail
                    &&& after.movement_queue is None
                    &&& after.data == (RobotData {
                        status_text: after.data.status_text,
                        ..before.data
                    })
                },
            }
        },
        _ => {
            &&& started == ProcessResult::Fail
            &&& after.movement_queue is None
            &&& after.data == before.data
        },
    }
}

/// What a tick of pursuit makes of a robot. A robot without a way to where
/// it last knew the other goes back to neutral. Any other plans the way;
/// without the power for a move it does no more, else it does what a
/// pursuer does that has planned its way.
pub open spec fn pursue_tick(
    before: &Robot,
    after: &Robot,
    grid_before: &Grid,
    grid_after: &Grid,
    target_angle: Option<i32>,
    step: ProcessResult,
) -> bool {
    if !has_way_to_last_known(before, grid_before) {
        step == ProcessResult::TransitionToNeutral && *after == *before && *grid_after
            == *grid_before
    } else if before.data.power < drive_power_usage(before.modules.m_drivesystem@) {
        step == ProcessResult::OutOfPower && planned_pursuit(before, after, grid_before)
            && *grid_after == *grid_before
    } else {
        exists|planned: Robot|
            planned_pursuit(before, &planned, grid_before) && #[trigger] chased(
                &planned,
                after,
                grid_before,
                grid_after,
                target_angle,
                step,
            )
    }
}

/// What a step of a pursuit can come to.
pub open spec fn is_pursue_outcome(robot: &Robot, step: ProcessResult) -> bool {
    match step {
        ProcessResult::Okay => true,
        ProcessResult::OutOfPower => true,
        ProcessResult::TransitionToNeutral => true,
        ProcessResult::TransitionToMove(tc, _, spin) => tc == last_known(robot) && !spin,
        _ => false,
    }
}

/// The pursuit of another robot.
pub struct Pursue {}

impl Pursue {
    /// Where the last robot in view with the given id stands.
    fn seen_at(others: &Vec<VisibleRobot>, id: i64) -> (place: Option<Coords>)
        ensures
            place == last_seen_at(others@, id),
    {
        let mut place: Option<Coords> = None;
        let mut i: usize = 0;
        while i < others.len()
            invariant
                i <= others.len(),
                place == last_seen_at(others@.take(i as int), id),
            decreases others.len() - i,
        {
            let other = others[i];
            proof {
                assert(others@.take(i + 1).drop_last() =~= others@.take(i as int));
            }
            if other.robot_id == id {
                place = Some(other.coords);
            }
            i = i + 1;
        }
        proof {
            assert(others@.take(others.len() as int) =~= others@);
        }
        place
    }

    /// Plans the way to where the robot last knew the other, and tells
    /// whether there is one.
    fn plan_to_last_known(robot: &mut Robot, grid: &Grid) -> (found: bool)
        requires
            cells_consistent(grid.cells@),
        ensures
            found == has_way_to_last_known(old(robot), grid),
            !found ==> *final(robot) == *old(robot),
            found ==> planned_pursuit(old(robot), final(robot), grid),
    {
        let current_target_coords = Coords {
            q: robot.data.pursuit_last_q,
            r: robot.data.pursuit_last_r,
        };
        match find_path(robot, grid, current_target_coords, true) {
            Ok(moves) => {
                robot.movement_queue = Some(moves);
                true
            },
            Err(_) => false,
        }
    }

    /// Looks at what a scan saw of the robot that is pursued.
    fn sight(robot: &mut Robot, from: Coords, target_angle: Option<i32>) -> (step: ProcessResult)
        ensures
            match last_seen_at(old(robot).visible_others@, old(robot).data.pursuit_id) {
                None => {
                    &&& step matches ProcessResult::TransitionToMove(to, _, spin)
                    &&& to == last_known(old(robot))
                    &&& !spin
                    &&& *final(robot) == *old(robot)
                },
                Some(latest) => {
                    &&& step == ProcessResult::Okay
                    &&& *final(robot) == old(robot).with_data(
                        RobotData {
                            pursuit_last_q: latest.q,
                            pursuit_last_r: latest.r,
                            status_text: final(robot).data.status_text,
                            ..old(robot).data
                        },
                    )
                    &&& if would_fire(old(robot), from, latest, target_angle) {
                        final(robot).data.status_text@ == status_after(
                            old(robot).data.status_text@,
                            would_fire_text(old(robot).data.pursuit_id),
                        )
                    } else {
                        final(robot).data.status_text == old(robot).data.status_text
                    }
                },
            },
    {
        let current_target_coords = Coords {
            q: robot.data.pursuit_last_q,
            r: robot.data.pursuit_last_r,
        };
        // if we can no longer see the robot we want to pursue,
        // switch to Move and to last known coords
        let latest_coords: Coords = match Self::seen_at(
            &robot.visible_others,
            robot.data.pursuit_id,
        ) {
            Some(c) => c,
            None => {
                return ProcessResult::TransitionToMove(
                    current_target_coords,
                    Dir::get_random(),
                    false,
                );
            },
        };

        // we still see the target so update our info on the target
        robot.update_pursuit_details(robot.data.pursuit_id, &latest_coords);

        let bearing: Option<i32> = match target_angle {
            Some(angle) => Some(get_bearing(robot.data.orientation, angle)),
            None => None,
        };
        let distance = from.wide_distance_to(&latest_coords);
        let in_range = distance <= i32::MAX as i64 && WeaponModule::in_range(
            robot.modules.m_weapons.as_str(),
            &from,
            &latest_coords,
            bearing,
        );
        if in_range {
            let status = text_with_number("I would fire on ", robot.data.pursuit_id, "");
            proof {
                reveal_strlit("");
                assert(status@ =~= would_fire_text(robot.data.pursuit_id));
            }
            robot.set_status_text(status.as_str());
        }
        ProcessResult::Okay
    }

    /// Starts the pursuit that a message asks for: the robot plans a way to
    /// where it sees the other robot and notes whom it pursues and where.
    /// The start fails where the robot does not see the other or knows no
    /// way to it.
    pub fn init(robot: &mut Robot, grid: &Grid, message: Option<ProcessResult>) -> (started:
        ProcessResult)
        requires
            cells_consistent(grid.cells@),
        ensures
            final(robot).known_cells == old(robot).known_cells,
            final(robot).visible_others == old(robot).visible_others,
            final(robot).visible_valuables == old(robot).visible_valuables,
            final(robot).active_process == old(robot).active_process,
            final(robot).modules == old(robot).modules,
            final(robot).clock == old(robot).clock,
            old(robot).wf() ==> final(robot).wf(),
            pursuit_started(old(robot), final(robot), grid, message, started),
    {
        robot.movement_queue = None;

        // We have to get a message containing the process result of a process
        // that decided we must move
        let target_id: i64 = match message {
            Some(ProcessResult::TransitionToPursue(id)) => id,
            _ => {
                return ProcessResult::Fail;
            },
        };
        let status = text_with_number("I'm pursuing Robot ", target_id, ".");
        robot.set_status_text(status.as_str());

        // find the coords of the other robot
        let target_coords: Coords = match Self::seen_at(&robot.visible_others, target_id) {
            Some(c) => c,
            None => {
                return ProcessResult::Fail;
            },
        };

        // find the path to the other robot
        let moves = find_path(robot, grid, target_coords, true);
        match moves {
            Ok(path_queue) => {
                robot.movement_queue = Some(path_queue);
            },
            Err(_) => {
                return ProcessResult::Fail;
            },
        }

        robot.update_pursuit_details(target_id, &target_coords);

        ProcessResult::Okay
    }

    /// Main run of the Pursue process: the robot plans anew the way to
    /// where it last knew the other robot, pays for a move and makes it,
    /// and looks round. Where it still sees the other it notes where; when
    /// it has the other before its weapon it says so in its status, and
    /// does not fire. Where it does not see the other, it goes to where it
    /// last knew the other. `target_angle` is the
    /// planar angle in whole degrees under which the other robot is seen
    /// from where the robot stands as the tick begins, where the caller can
    /// tell it.
    pub fn run(robot: &mut Robot, grid: &mut Grid, target_angle: Option<i32>) -> (step:
        ProcessResult)
        requires
            old(robot).wf(),
            old(grid).wf(),
        ensures
            final(robot).wf(),
            final(grid).wf(),
            final(grid).cells@ == old(grid).cells@,
            final(grid).valuables_locs@ == old(grid).valuables_locs@,
            final(grid).cell_list() == old(grid).cell_list(),
            final(grid).guess() == old(grid).guess(),
            old(robot).steady(final(robot)),
            old(robot).stepped(final(robot), old(grid), final(grid)),
            final(robot).active_process == old(robot).active_process,
            final(robot).data.mined_amount == old(robot).data.mined_amount,
            final(robot).data.exfil_countdown == old(robot).data.exfil_countdown,
            final(robot).data.pursuit_id == old(robot).data.pursuit_id,
            final(robot).data.power <= old(robot).data.power,
            is_pursue_outcome(old(robot), step),
            pursue_tick(old(robot), final(robot), old(grid), final(grid), target_angle, step),
    {
        // find the path to the other robot
        if !Self::plan_to_last_known(robot, grid) {
            return ProcessResult::TransitionToNeutral;
        }
        let ghost planned = *robot;

        // take a step
        let power_need = DriveSystemModule::get_power_usage(robot.modules.m_drivesystem.as_str());
        if robot.data.power < power_need {
            return ProcessResult::OutOfPower;
        }
        let step = Self::chase(robot, grid, target_angle);
        proof {
            assert(chased(&planned, robot, old(grid), grid, target_angle, step));
        }
        step
    }

    /// The part of a tick of pursuit that follows the planning: the robot
    /// pays for a move, tries the move and looks round for the other.
    fn chase(robot: &mut Robot, grid: &mut Grid, target_angle: Option<i32>) -> (step:
        ProcessResult)
        requires
            old(robot).wf(),
            old(grid).wf(),
            old(robot).data.power >= drive_power_usage(old(robot).modules.m_drivesystem@),
        ensures
            final(robot).wf(),
            final(grid).wf(),
            final(grid).cells@ == old(grid).cells@,
            final(grid).valuables_locs@ == old(grid).valuables_locs@,
            final(grid).cell_list() == old(grid).cell_list(),
            final(grid).guess() == old(grid).guess(),
            old(robot).steady(final(robot)),
            old(robot).stepped(final(robot), old(grid), final(grid)),
            final(robot).active_process == old(robot).active_process,
            final(robot).data.mined_amount == old(robot).data.mined_amount,
            final(robot).data.exfil_countdown == old(robot).data.exfil_countdown,
            final(robot).data.pursuit_id == old(robot).data.pursuit_id,
            final(robot).data.power <= old(robot).data.power,
            is_pursue_outcome(old(robot), step),
            chased(old(robot), final(robot), old(grid), final(grid), target_angle, step),
    {
        let robot_coords = Coords { q: robot.data.q, r: robot.data.r };
        let power_need = DriveSystemModule::get_power_usage(robot.modules.m_drivesystem.as_str());
        robot.use_power(power_need);

        // try to move but don't care if we fail (we might be right next to the target)
        robot.move_robot(grid);

        // scan and make sure we still see our robot
        let scan_results = Scan::run(robot, grid);
        if let ProcessResult::OutOfPower = scan_results {
            return ProcessResult::OutOfPower;
        }
        Self::sight(robot, robot_coords, target_angle)
    }
}

} // verus!
