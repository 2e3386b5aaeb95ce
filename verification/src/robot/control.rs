//! The tick of a robot: what takes precedence over the robot's behaviour,
//! the step of the behaviour, and the change from one behaviour to the
//! next.

use vstd::prelude::*;

use crate::grid::coords::{dir_of_degrees, Coords};
use crate::grid::grid::{cells_consistent, Grid};
use crate::grid::utils::traversal::{
    farthest_among, farthest_goal, is_goal, lemma_farthest_among, reachable,
};
use crate::robot::behaviors::{fled_attack, flight_from, free_known_coords, is_free_known};
use crate::robot::modules::collector::collection_max;
use crate::robot::modules::drivesystem::drive_power_usage;
use crate::robot::modules::exfilbeacon::exfil_delay;
use crate::robot::process::collect::{collect_step, Collect};
use crate::robot::process::exfil::{called, waited, Exfil};
use crate::robot::process::explode::{blew_up, drop_value, Explode};
use crate::robot::process::moveproc::{move_tick, set_out, Move};
use crate::robot::process::neutral::{idle_tick, settled_down, Neutral};
use crate::robot::process::pursue::{last_known, pursue_tick, pursuit_started, Pursue};
use crate::robot::process::{ProcessResult, Processes};
use crate::robot::robot::{status_after, text_with_number, Robot, RobotData};
use crate::server::{Request, Response};
use crate::utils::decimal_text;

verus! {

/// Whether nothing takes precedence over a robot's behaviour at a tick: the
/// robot's hull holds, and the robot was not hit or pursues another.
pub open spec fn undisturbed(robot: &Robot) -> bool {
    robot.data.hull_strength > 0 && !(robot.data.attacked_by != -1 && robot.data.pursuit_id == -1)
}

/// The behaviour that a robot follows: the one that is active, and idling
/// where none is.
pub open spec fn behaviour(robot: &Robot) -> Processes {
    match robot.active_process {
        Some(process) => process,
        None => Processes::Neutral,
    }
}

/// Whether a start succeeded that left the robot with the given queue of
/// moves.
pub open spec fn start_of(robot: &Robot) -> ProcessResult {
    if robot.movement_queue is Some {
        ProcessResult::Okay
    } else {
        ProcessResult::Fail
    }
}

/// What takes precedence over a robot's behaviour at a tick, with the robot
/// as it was before and as it is when its behaviour takes its step. A
/// robot whose hull is gone explodes. A robot that was hit and pursues
/// nobody answers to the hit; where it is to flee and can start the move,
/// it is on the move. A robot that follows no behaviour idles.
pub open spec fn roused(before: &Robot, after: &Robot, grid: &Grid) -> bool {
    if before.data.hull_strength <= 0 {
        *after == (Robot { active_process: Some(Processes::Explode), ..*before })
    } else if before.data.attacked_by != -1 && before.data.pursuit_id == -1 {
        exists|fled: Robot, flight: Option<ProcessResult>| #[trigger]
            fled_attack(before, &fled, grid, flight) && (if flight is Some {
                &&& set_out(
                    &fled,
                    &(Robot { active_process: before.active_process, ..*after }),
                    grid,
                    flight,
                    start_of(after),
                )
                &&& after.active_process == (if start_of(after) == ProcessResult::Okay {
                    Some(Processes::Move)
                } else {
                    Some(behaviour(before))
                })
            } else {
                *after == (Robot { active_process: Some(behaviour(before)), ..fled })
            })
    } else {
        *after == (Robot { active_process: Some(behaviour(before)), ..*before })
    }
}

/// A robot with nothing on record of attacks.
pub open spec fn cleared(robot: &Robot) -> Robot {
    robot.with_data(
        RobotData {
            attacked: -1i64,
            damage_done: -1i32,
            attacked_by: -1i64,
            attacked_from: -1i32,
            ..robot.data
        },
    )
}

/// What the step of a robot's behaviour makes of the robot and the grid,
/// and what the step comes to.
pub open spec fn acted(
    before: &Robot,
    after: &Robot,
    grid_before: &Grid,
    grid_after: &Grid,
    target_angle: Option<i32>,
    step: ProcessResult,
) -> bool {
    match behaviour(before) {
        Processes::Collect => *after == *before && *grid_after == *grid_before && step
            == collect_step(before, grid_before),
        Processes::Exfil => waited(before, after, step) && *grid_after == *grid_before,
        Processes::Explode => blew_up(before, after, step) && *grid_after == *grid_before,
        Processes::Move => move_tick(before, after, grid_before, grid_after, step),
        Processes::Neutral => idle_tick(before, after, grid_before, step) && *grid_after
            == *grid_before,
        Processes::Pursue => pursue_tick(
            before,
            after,
            grid_before,
            grid_after,
            target_angle,
            step,
        ),
        Processes::Scan => *after == *before && *grid_after == *grid_before && step
            == ProcessResult::Okay,
    }
}

/// A robot after its recharge.
pub open spec fn charged(robot: &Robot) -> Robot {
    robot.with_data(
        RobotData {
            power: Robot::recharged(
                robot.data.power as int,
                robot.data.recharge_rate as int,
                robot.data.max_power as int,
            ) as i32,
            ..robot.data
        },
    )
}

/// What follows the step of a robot's behaviour, with the robot as the step
/// left it and as it is after the tick: the robot recharges. A step that
/// asks for another behaviour starts that behaviour, which is active from
/// then on if the start succeeds. A step that asks something of the server
/// has the request handed on.
pub open spec fn settled(
    before: &Robot,
    after: &Robot,
    grid: &Grid,
    step: ProcessResult,
    request: Option<Request>,
) -> bool {
    let full = charged(before);
    let begun = Robot { active_process: before.active_process, ..*after };
    match step {
        ProcessResult::TransitionToCollect => {
            &&& request is None
            &&& *after == (Robot {
                active_process: Some(Processes::Collect),
                ..full.with_data(RobotData { mined_amount: 0, ..full.data })
            })
        },
        ProcessResult::TransitionToExfiltrate => {
            &&& request is None
            &&& called(&full, &begun)
            &&& after.active_process == Some(Processes::Exfil)
        },
        ProcessResult::TransitionToFlee(_, _) => {
            &&& request is None
            &&& set_out(&full, &begun, grid, Some(step), start_of(after))
            &&& after.active_process == (if start_of(after) == ProcessResult::Okay {
                Some(Processes::Move)
            } else {
                before.active_process
            })
        },
        ProcessResult::TransitionToMove(_, _, _) => {
            &&& request is None
            &&& set_out(&full, &begun, grid, Some(step), start_of(after))
            &&& after.active_process == (if start_of(after) == ProcessResult::Okay {
                Some(Processes::Move)
            } else {
                before.active_process
            })
        },
        ProcessResult::TransitionToNeutral => {
            &&& request is None
            &&& settled_down(&full, &begun)
            &&& after.active_process == Some(Processes::Neutral)
        },
        ProcessResult::TransitionToPursue(_) => {
            &&& request is None
            &&& pursuit_started(&full, &begun, grid, Some(step), start_of(after))
            &&& after.active_process == (if start_of(after) == ProcessResult::Okay {
                Some(Processes::Pursue)
            } else {
                before.active_process
            })
        },
        ProcessResult::ServerRequest(asked) => request == Some(asked) && *after == full,
        _ => request is None && *after == full,
    }
}

/// What a tick makes of a robot and the grid: what takes precedence is
/// seen to, the record of attacks is cleared, the robot's behaviour takes
/// its step, and what follows the step is done.
pub open spec fn ticked(
    before: &Robot,
    after: &Robot,
    grid_before: &Grid,
    grid_after: &Grid,
    target_angle: Option<i32>,
    request: Option<Request>,
) -> bool {
    exists|ready: Robot, done: Robot, step: ProcessResult|
        roused(before, &ready, grid_before) && #[trigger] acted(
            &cleared(&ready),
            &done,
            grid_before,
            grid_after,
            target_angle,
            step,
        ) && settled(&done, after, grid_after, step, request)
}

/// The status of a robot that has hit another.
pub open spec fn attacked_text(target_id: i64, damage: i32) -> Seq<char> {
    "Attacked Robot "@ + decimal_text(target_id as int) + " for "@ + decimal_text(damage as int)
}

/// What an answer of the server makes of a robot. A hit that went home is
/// noted, with the status that tells of it. After a failure the robot idles
/// and pursues nobody. What was mined is added to the robot's load and to
/// what it has mined of the pile.
pub open spec fn heard(before: &Robot, after: &Robot, response: Response) -> bool {
    match response {
        Response::AttackFailed => *after == *before,
        Response::AttackSuccess { target_id, damage } => {
            &&& after.data.status_text@ == status_after(
                before.data.status_text@,
                attacked_text(target_id, damage),
            )
            &&& *after == before.with_data(
                RobotData {
                    attacked: target_id,
                    damage_done: damage,
                    status_text: after.data.status_text,
                    ..before.data
                },
            )
        },
        // if we failed something, we should go back to the neutral position
        Response::Fail => {
            &&& after.data.status_text@ == status_after(
                before.data.status_text@,
                "I'm idle."@,
            )
            &&& *after == (Robot {
                active_process: Some(Processes::Neutral),
                data: RobotData {
                    status_text: after.data.status_text,
                    pursuit_id: -1i64,
                    pursuit_last_q: before.data.q,
                    pursuit_last_r: before.data.r,
                    ..before.data
                },
                ..*before
            })
        },
        Response::Mined { valuable_id, amount } => *after == before.with_data(
            RobotData {
                mined_amount: (before.data.mined_amount + amount) as i32,
                val_inventory: (before.data.val_inventory + amount) as i32,
                ..before.data
            },
        ),
    }
}

impl Robot {
    /// Successfully attacked a target; record it for this tick
    pub fn successfully_attacked(&mut self, target_id: i64, damage: i32)
        ensures
            final(self).data.status_text@ == status_after(
                old(self).data.status_text@,
                attacked_text(target_id, damage),
            ),
            *final(self) == old(self).with_data(
                RobotData {
                    attacked: target_id,
                    damage_done: damage,
                    status_text: final(self).data.status_text,
                    ..old(self).data
                },
            ),
    {
        self.data.attacked = target_id;
        self.data.damage_done = damage;

        let mut status = text_with_number("Attacked Robot ", target_id, " for ");
        let tail = text_with_number("", damage as i64, "");
        status.append(tail.as_str());
        proof {
            reveal_strlit("");
            assert(status@ =~= attacked_text(target_id, damage));
        }
        self.set_status_text(status.as_str());
    }

    /// Handles a response back from the server.  This happens when we send a
    /// request to the server to do things like mining a valuable or attacking
    /// another robot
    pub fn handle_server_response(&mut self, response: Response)
        requires
            response matches Response::Mined { valuable_id, amount } ==> {
                &&& i32::MIN <= old(self).data.mined_amount + amount <= i32::MAX
                &&& i32::MIN <= old(self).data.val_inventory + amount <= i32::MAX
            },
        ensures
            old(self).wf() && (response matches Response::Mined { valuable_id, amount } ==> 0
                <= amount <= old(self).data.max_val_inventory - old(self).data.val_inventory)
                ==> final(self).wf(),
            heard(old(self), final(self), response),
    {
        match response {
            Response::AttackFailed => (),
            Response::AttackSuccess { target_id, damage } => {
                self.successfully_attacked(target_id, damage)
            },
            Response::Fail => {
                Neutral::init(self);
                self.active_process = Some(Processes::Neutral);
            },
            Response::Mined { valuable_id: _, amount } => {
                self.successfully_mined(amount);
            },
        }
    }

    /// Handles a tick. A robot whose hull is gone explodes; one that was hit
    /// and pursues nobody flees. Then the robot's behaviour takes its step,
    /// the robot recharges, and where the step asks for another behaviour
    /// that behaviour starts. A request that the step makes of the server
    /// is handed back. `target_angle` is the planar angle in whole degrees
    /// under which the robot sees the robot that it pursues, where the
    /// caller can tell it.
    pub fn tick(&mut self, grid: &mut Grid, target_angle: Option<i32>) -> (request: Option<Request>)
        requires
            old(self).wf(),
            old(grid).wf(),
        ensures
            final(self).wf(),
            final(grid).wf(),
            ticked(old(self), final(self), old(grid), final(grid), target_angle, request),
            final(grid).cells@ == old(grid).cells@,
            final(grid).valuables_locs@ == old(grid).valuables_locs@,
            final(grid).cell_list() == old(grid).cell_list(),
            final(grid).guess() == old(grid).guess(),
            final(self).modules == old(self).modules,
            old(self).stepped(final(self), old(grid), final(grid)),
            final(self).data.id == old(self).data.id,
            final(self).data.val_inventory == old(self).data.val_inventory,
            final(self).data.hull_strength == old(self).data.hull_strength,
            final(self).data.attacked_by == -1,
            final(self).data.attacked_from == -1,
            final(self).data.attacked == -1,
            final(self).data.damage_done == -1,
            final(self).active_process is Some,
            old(self).data.hull_strength <= 0 ==> request == Some(
                Request::Explode { valuables: drop_value(old(self)) as i32 },
            ) && final(self).active_process == Some(Processes::Explode),
            undisturbed(old(self)) && old(self).active_process == Some(Processes::Exfil) ==> {
                &&& final(self).data.exfil_countdown == Robot::counted_down(
                    old(self).data.exfil_countdown,
                )
                &&& final(self).active_process == Some(Processes::Exfil)
                &&& request == (if final(self).data.exfil_countdown == 0 {
                    Some(Request::Exfiltrate { robot_id: old(self).data.id })
                } else {
                    None
                })
                &&& final(self).coords() == old(self).coords()
                &&& final(self).data.power == Robot::recharged(
                    old(self).data.power as int,
                    old(self).data.recharge_rate as int,
                    old(self).data.max_power as int,
                )
                &&& *final(grid) == *old(grid)
            },
            undisturbed(old(self)) && old(self).active_process == Some(Processes::Collect) ==> {
                &&& final(self).coords() == old(self).coords()
                &&& *final(grid) == *old(grid)
                &&& match collect_step(old(self), old(grid)) {
                    ProcessResult::ServerRequest(asked) => {
                        &&& request == Some(asked)
                        &&& final(self).active_process == Some(Processes::Collect)
                        &&& final(self).data.mined_amount == old(self).data.mined_amount
                    },
                    _ => {
                        &&& request is None
                        &&& final(self).active_process == Some(Processes::Neutral)
                        &&& final(self).data.pursuit_id == -1
                    },
                }
            },
            undisturbed(old(self)) && old(self).active_process == Some(Processes::Move) && old(self).data.power < drive_power_usage(old(self).modules.m_drivesystem@) ==> {
                &&& request is None
                &&& final(self).active_process == Some(Processes::Move)
                &&& final(self).movement_queue == old(self).movement_queue
                &&& final(self).coords() == old(self).coords()
                &&& *final(grid) == *old(grid)
            },
            undisturbed(old(self)) && old(self).active_process == Some(Processes::Move) && old(self).data.power >= drive_power_usage(old(self).modules.m_drivesystem@) && (match old(self).movement_queue {
                None => true,
                Some(queue) => queue@.len() == 0,
            }) ==> {
                &&& request is None
                &&& final(self).active_process == Some(Processes::Neutral)
                &&& final(self).movement_queue is None
                &&& final(self).coords() == old(self).coords()
                &&& *final(grid) == *old(grid)
            },
            undisturbed(old(self)) && old(self).active_process == Some(Processes::Pursue)
                && !reachable(
                old(self).planning_cells(old(grid), last_known(old(self)), true),
                old(self).coords(),
                last_known(old(self)),
            ) ==> {
                &&& request is None
                &&& final(self).active_process == Some(Processes::Neutral)
                &&& final(self).data.pursuit_id == -1
                &&& final(self).coords() == old(self).coords()
                &&& *final(grid) == *old(grid)
            },
            undisturbed(old(self)) && (old(self).active_process is None || old(self).active_process
                == Some(Processes::Neutral)) && old(self).data.val_inventory >= collection_max(
                old(self).modules.m_collector@,
            ) ==> {
                &&& request is None
                &&& final(self).active_process == Some(Processes::Exfil)
                &&& final(self).data.exfil_countdown == exfil_delay(
                    old(self).modules.m_exfilbeacon@,
                )
                &&& final(self).coords() == old(self).coords()
                &&& *final(grid) == *old(grid)
            },
            match request {
                None => true,
                Some(Request::Attack { target_id }) => false,
                Some(Request::Exfiltrate { robot_id }) => robot_id == old(self).data.id && final(self).active_process == Some(Processes::Exfil) && final(self).data.exfil_countdown
                    == 0,
                Some(Request::Explode { valuables }) => valuables == drop_value(old(self))
                    && final(self).active_process == Some(Processes::Explode),
                Some(Request::Mine { valuable_id, amount }) => {
                    &&& final(self).active_process == Some(Processes::Collect)
                    &&& 0 < amount <= final(self).data.max_val_inventory - final(self).data.val_inventory
                    &&& final(self).data.mined_amount + amount <= i32::MAX
                    &&& old(grid).valuables_locs@.contains_key(final(self).coords())
                    &&& old(grid).valuables_locs@[final(self).coords()] == valuable_id
                },
            },
    {
        self.ident();
        self.rouse(grid);
        let ghost ready = *self;

        // clear any previous attack details
        self.clear_attack_info();
        self.clear_attacker_info();
        assert(*self == cleared(&ready));

        // make the next move based on our active process
        let step = self.act(grid, target_angle);
        let ghost done = *self;

        // recharge, and start what the step asks for
        let request = self.settle(grid, step);
        assert(roused(old(self), &ready, old(grid)) && acted(
            &cleared(&ready),
            &done,
            old(grid),
            grid,
            target_angle,
            step,
        ) && settled(&done, self, grid, step, request));
        request
    }

    /// Sees to what takes precedence over the robot's behaviour.
    fn rouse(&mut self, grid: &Grid)
        requires
            old(self).wf(),
            cells_consistent(grid.cells@),
        ensures
            final(self).wf(),
            roused(old(self), final(self), grid),
            final(self).active_process is Some,
            final(self).modules == old(self).modules,
            final(self).known_cells == old(self).known_cells,
            final(self).visible_others == old(self).visible_others,
            final(self).visible_valuables == old(self).visible_valuables,
            final(self).clock == old(self).clock,
            final(self).data == (RobotData {
                status_text: final(self).data.status_text,
                ..old(self).data
            }),
            old(self).data.hull_strength <= 0 ==> *final(self) == (Robot {
                active_process: Some(Processes::Explode),
                ..*old(self)
            }),
            undisturbed(old(self)) ==> *final(self) == (Robot {
                active_process: Some(behaviour(old(self))),
                ..*old(self)
            }),
    {
        // if our hull strength is less than or equal to zero, explode!
        if self.data.hull_strength <= 0 {
            Explode::init(self);
            self.active_process = Some(Processes::Explode);
        }
        // if we were attacked, we may need to flee
         else if self.is_under_attack() && !self.is_pursuing() {
            let response = self.respond_to_attack(grid);
            let ghost fled = *self;
            if let Some(ProcessResult::TransitionToFlee(_, _)) = response {
                if let ProcessResult::Okay = Move::init(self, grid, response) {
                    self.active_process = Some(Processes::Move);
                }
            }
            // if we have no active process, go to neutral
            if self.active_process.is_none() {
                self.active_process = Some(Processes::Neutral);
            }
            proof {
                assert(fled_attack(old(self), &fled, grid, response));
                if response is Some {
                    assert(set_out(
                        &fled,
                        &(Robot { active_process: old(self).active_process, ..*self }),
                        grid,
                        response,
                        start_of(self),
                    ));
                } else {
                    assert(*self == (Robot {
                        active_process: Some(behaviour(old(self))),
                        ..fled
                    }));
                }
            }
        } else if self.active_process.is_none() {
            self.active_process = Some(Processes::Neutral);
        }
    }

    /// Lets the robot's behaviour take its step.
    fn act(&mut self, grid: &mut Grid, target_angle: Option<i32>) -> (step: ProcessResult)
        requires
            old(self).wf(),
            old(grid).wf(),
        ensures
            final(self).wf(),
            final(grid).wf(),
            final(grid).cells@ == old(grid).cells@,
            final(grid).valuables_locs@ == old(grid).valuables_locs@,
            final(grid).cell_list() == old(grid).cell_list(),
            final(grid).guess() == old(grid).guess(),
            old(self).steady(final(self)),
            old(self).stepped(final(self), old(grid), final(grid)),
            final(self).active_process == old(self).active_process,
            acted(old(self), final(self), old(grid), final(grid), target_angle, step),
            match step {
                ProcessResult::ServerRequest(Request::Attack { target_id }) => false,
                ProcessResult::ServerRequest(Request::Exfiltrate { robot_id }) => {
                    &&& robot_id == old(self).data.id
                    &&& old(self).active_process == Some(Processes::Exfil)
                    &&& final(self).data.exfil_countdown == 0
                },
                ProcessResult::ServerRequest(Request::Explode { valuables }) => {
                    &&& valuables == drop_value(old(self))
                    &&& old(self).active_process == Some(Processes::Explode)
                },
                ProcessResult::ServerRequest(Request::Mine { valuable_id, amount }) => {
                    &&& old(self).active_process == Some(Processes::Collect)
                    &&& 0 < amount <= old(self).data.max_val_inventory - old(self).data.val_inventory
                    &&& old(self).data.mined_amount + amount <= i32::MAX
                    &&& old(grid).valuables_locs@.contains_key(old(self).coords())
                    &&& old(grid).valuables_locs@[old(self).coords()] == valuable_id
                    &&& *final(self) == *old(self)
                },
                _ => true,
            },
    {
        let process: Processes = match self.active_process {
            Some(process) => process,
            None => Processes::Neutral,
        };
        match process {
            Processes::Collect => Collect::run(self, grid),
            Processes::Exfil => Exfil::run(self),
            Processes::Explode => Explode::run(self),
            Processes::Move => Move::run(self, grid),
            Processes::Neutral => Neutral::run(self, grid),
            Processes::Pursue => Pursue::run(self, grid, target_angle),
            Processes::Scan => ProcessResult::Okay,
        }
    }

    /// Recharges the robot and does what follows the step of its behaviour.
    fn settle(&mut self, grid: &Grid, step: ProcessResult) -> (request: Option<Request>)
        requires
            old(self).wf(),
            cells_consistent(grid.cells@),
        ensures
            final(self).wf(),
            settled(old(self), final(self), grid, step, request),
            old(self).steady(final(self)),
            final(self).coords() == old(self).coords(),
            final(self).data.orientation == old(self).data.orientation,
            old(self).active_process is Some ==> final(self).active_process is Some,
            request == (match step {
                ProcessResult::ServerRequest(asked) => Some(asked),
                _ => None,
            }),
    {
        // recharge batteries
        self.recharge_power();

        // If we are transitioning, initialize it
        // If we have a request to the server, return it
        let mut request: Option<Request> = None;
        match step {
            ProcessResult::TransitionToCollect => {
                if let ProcessResult::Okay = Collect::init(self) {
                    self.active_process = Some(Processes::Collect);
                }
            },
            ProcessResult::TransitionToExfiltrate => {
                if let ProcessResult::Okay = Exfil::init(self) {
                    self.active_process = Some(Processes::Exfil);
                }
            },
            ProcessResult::TransitionToFlee(c, d) => {
                if let ProcessResult::Okay = Move::init(
                    self,
                    grid,
                    Some(ProcessResult::TransitionToFlee(c, d)),
                ) {
                    self.active_process = Some(Processes::Move);
                }
            },
            ProcessResult::TransitionToMove(c, d, spin) => {
                if let ProcessResult::Okay = Move::init(
                    self,
                    grid,
                    Some(ProcessResult::TransitionToMove(c, d, spin)),
                ) {
                    self.active_process = Some(Processes::Move);
                }
            },
            ProcessResult::TransitionToNeutral => {
                Neutral::init(self);
                self.active_process = Some(Processes::Neutral);
            },
            ProcessResult::TransitionToPursue(id) => {
                if let ProcessResult::Okay = Pursue::init(
                    self,
                    grid,
                    Some(ProcessResult::TransitionToPursue(id)),
                ) {
                    self.active_process = Some(Processes::Pursue);
                }
            },
            ProcessResult::ServerRequest(asked) => {
                request = Some(asked);
            },
            _ => {},
        }
        request
    }
}

/// Where a robot that was hit takes the attacker to stand: two steps off in
/// the direction from which the hit came.
pub open spec fn attacker_place(robot: &Robot) -> Coords {
    robot.coords().step(dir_of_degrees(robot.data.attacked_from as int), 2)
}

/// Where a robot flees to does not hang on what its status says.
proof fn lemma_flight_ignores_status(a: &Robot, b: &Robot, grid: &Grid, threat: Coords)
    requires
        *b == a.with_data(RobotData { status_text: b.data.status_text, ..a.data }),
    ensures
        flight_from(a, grid, threat) == flight_from(b, grid, threat),
{
    assert(is_goal(a, grid, true) =~= is_goal(b, grid, true));
    assert(is_free_known(a, grid) =~= is_free_known(b, grid));
    assert(free_known_coords(a, grid) =~= free_known_coords(b, grid));
}

/// A robot that was hit, that pursues nobody and that can flee is on the
/// move when its behaviour takes its step, whatever it did before: it has
/// set out for the cell farthest from the attacker among the cells that it
/// can reach, and nothing else of it has changed but its status.
pub proof fn lemma_hit_robot_sets_out(before: &Robot, ready: &Robot, grid: &Grid)
    requires
        roused(before, ready, grid),
        before.data.hull_strength > 0,
        before.data.attacked_by != -1,
        before.data.pursuit_id == -1,
        flight_from(before, grid, attacker_place(before)) is Some,
    ensures
        ready.active_process == Some(Processes::Move),
        ready.movement_queue is Some,
        ready.data == (RobotData { status_text: ready.data.status_text, ..before.data }),
        ready.known_cells == before.known_cells,
        ready.modules == before.modules,
{
    let (fled, flight) = choose|fled: Robot, flight: Option<ProcessResult>| #[trigger]
        fled_attack(before, &fled, grid, flight) && (if flight is Some {
            &&& set_out(
                &fled,
                &(Robot { active_process: before.active_process, ..*ready }),
                grid,
                flight,
                start_of(ready),
            )
            &&& ready.active_process == (if start_of(ready) == ProcessResult::Okay {
                Some(Processes::Move)
            } else {
                Some(behaviour(before))
            })
        } else {
            *ready == (Robot { active_process: Some(behaviour(before)), ..fled })
        });
    let threat = attacker_place(before);
    lemma_flight_ignores_status(before, &fled, grid, threat);
    assert(flight == flight_from(&fled, grid, threat));
    let goals = free_known_coords(&fled, grid).filter(is_goal(&fled, grid, true));
    assert(goals.len() > 0);
    lemma_farthest_among(goals, threat, goals.len() as int);
    let at = farthest_among(goals, threat, goals.len() as int);
    let tc = goals[at];
    free_known_coords(&fled, grid).lemma_filter_pred(is_goal(&fled, grid, true), at);
    assert(is_goal(&fled, grid, true)(tc));
    assert(farthest_goal(&fled, grid, free_known_coords(&fled, grid), true, threat) == Some(tc));
    assert(flight == Some(ProcessResult::TransitionToFlee(tc, fled.data.orientation)));
}

/// The tick of a robot that was hit, that pursues nobody and that can flee
/// is a tick on the move, whatever the robot did before: the robot sets
/// out on its flight, the step that it takes is a step on the move, and it
/// asks nothing of the server.
pub proof fn lemma_tick_of_hit_robot(
    before: &Robot,
    after: &Robot,
    grid_before: &Grid,
    grid_after: &Grid,
    target_angle: Option<i32>,
    request: Option<Request>,
)
    requires
        ticked(before, after, grid_before, grid_after, target_angle, request),
        before.data.hull_strength > 0,
        before.data.attacked_by != -1,
        before.data.pursuit_id == -1,
        flight_from(before, grid_before, attacker_place(before)) is Some,
    ensures
        request is None,
        exists|ready: Robot, done: Robot, step: ProcessResult|
            {
                &&& ready.active_process == Some(Processes::Move)
                &&& ready.movement_queue is Some
                &&& #[trigger] move_tick(&cleared(&ready), &done, grid_before, grid_after, step)
                &&& settled(&done, after, grid_after, step, request)
            },
{
    let (ready, done, step) = choose|ready: Robot, done: Robot, step: ProcessResult|
        roused(before, &ready, grid_before) && #[trigger] acted(
            &cleared(&ready),
            &done,
            grid_before,
            grid_after,
            target_angle,
            step,
        ) && settled(&done, after, grid_after, step, request);
    lemma_hit_robot_sets_out(before, &ready, grid_before);
    assert(behaviour(&cleared(&ready)) == Processes::Move);
    assert(move_tick(&cleared(&ready), &done, grid_before, grid_after, step));
    assert(!(step is ServerRequest));
}

} // verus!
