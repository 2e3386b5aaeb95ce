//! How a robot answers to what it sees and to what hits it: flight from
//! threats, pursuit of targets.

use vstd::prelude::*;
use vstd::string::StringExecFns;

use crate::grid::coords::{dir_of_degrees, Coords, Dir};
use crate::grid::grid::{cells_consistent, lemma_step_near, Grid};
use crate::grid::utils::traversal::{
    closest_goal, farthest_goal, find_closest_coords, find_farthest_coords, find_path, reachable,
};
use crate::robot::modules::weapon::{weapon_max_damage, WeaponModule};
use crate::robot::process::scan::{ThreatLevel, VisibleRobot};
use crate::robot::process::ProcessResult;
use crate::robot::robot::{
    coords_status, coords_text, dir_status, dir_text, known_free_map, status_after, Robot,
    RobotData, RobotKnownCell,
};

verus! {

/// Whether a robot in view is one to flee from: one that is stronger, or of
/// which the scanner told nothing.
pub open spec fn is_threat() -> spec_fn(VisibleRobot) -> bool {
    |other: VisibleRobot|
        other.threat_level == ThreatLevel::Stronger || other.threat_level == ThreatLevel::Unknown
}

/// Whether a robot in view is one to pursue: one that is weaker or as
/// strong.
pub open spec fn is_target() -> spec_fn(VisibleRobot) -> bool {
    |other: VisibleRobot|
        other.threat_level == ThreatLevel::Weaker || other.threat_level == ThreatLevel::Equal
}

/// Where the robots of a list stand.
pub open spec fn coords_of_robots(others: Seq<VisibleRobot>) -> Seq<Coords> {
    Seq::new(others.len(), |i: int| others[i].coords)
}

/// The id of the last robot of a list that stands at `c`.
pub open spec fn last_robot_at(others: Seq<VisibleRobot>, c: Coords) -> Option<i64>
    decreases others.len(),
{
    if others.len() == 0 {
        None
    } else if others.last().coords == c {
        Some(others.last().robot_id)
    } else {
        last_robot_at(others.drop_last(), c)
    }
}

/// Whether a known cell lies in the grid and no other robot was seen on it.
pub open spec fn is_free_known(robot: &Robot, grid: &Grid) -> spec_fn(RobotKnownCell) -> bool {
    |cell: RobotKnownCell|
        known_free_map(
            robot.known_cells@,
            robot.visible_others@,
            robot.coords(),
            grid.cells@,
        ).contains_key(cell.coords())
}

/// The positions of the cells that a robot knows and on which it saw no
/// other robot, in the order in which it remembers them.
pub open spec fn free_known_coords(robot: &Robot, grid: &Grid) -> Seq<Coords> {
    let free = robot.known_cells@.filter(is_free_known(robot, grid));
    Seq::new(free.len(), |i: int| free[i].coords())
}

/// What a robot does about a threat at `threat`: it flees to the cell
/// farthest from the threat among the cells that it can reach, and keeps
/// its facing; it does nothing where it can reach none.
pub open spec fn flight_from(robot: &Robot, grid: &Grid, threat: Coords) -> Option<ProcessResult> {
    match farthest_goal(robot, grid, free_known_coords(robot, grid), true, threat) {
        Some(c) => Some(ProcessResult::TransitionToFlee(c, robot.data.orientation)),
        None => None,
    }
}

/// The threat that a robot flees from: the nearest of the robots in view
/// that are threats.
pub open spec fn nearest_threat(robot: &Robot, grid: &Grid) -> Option<Coords> {
    closest_goal(robot, grid, coords_of_robots(robot.visible_others@.filter(is_threat())), false)
}

/// The target that a robot goes for: the nearest of the robots in view that
/// are targets.
pub open spec fn nearest_target(robot: &Robot, grid: &Grid) -> Option<Coords> {
    closest_goal(robot, grid, coords_of_robots(robot.visible_others@.filter(is_target())), false)
}

/// What a robot does about the targets in view: it pursues the robot on the
/// nearest target's cell where it can plan a way there.
pub open spec fn pursuit_of_targets(robot: &Robot, grid: &Grid) -> Option<ProcessResult> {
    match nearest_target(robot, grid) {
        None => None,
        Some(c) => if reachable(robot.planning_cells(grid, c, true), robot.coords(), c) {
            match last_robot_at(robot.visible_others@, c) {
                Some(id) => Some(ProcessResult::TransitionToPursue(id)),
                None => None,
            }
        } else {
            None
        },
    }
}

/// The status of a robot that flees from a threat.
pub open spec fn must_flee_text(c: Coords) -> Seq<char> {
    "Must flee from "@ + coords_text(c)
}

/// How a robot answers to a hit: a robot that pursues another does nothing.
/// Any other says that it runs away, and flees from the place two steps
/// off in the direction from which it was hit, if it can reach a cell to
/// flee to.
pub open spec fn fled_attack(
    before: &Robot,
    after: &Robot,
    grid: &Grid,
    flight: Option<ProcessResult>,
) -> bool {
    if before.data.pursuit_id != -1 {
        flight is None && *after == *before
    } else {
        let from = dir_of_degrees(before.data.attacked_from as int);
        &&& after.data.status_text@ == status_after(
            before.data.status_text@,
            running_away_text(from),
        )
        &&& *after == before.with_data(
            RobotData { status_text: after.data.status_text, ..before.data },
        )
        &&& flight == flight_from(after, grid, before.coords().step(from, 2))
    }
}

/// How a robot answers to the robots in its view: only its status changes.
/// Where it sees a threat it says so and flees from the nearest, if it can
/// reach a cell to flee to. Where it does not flee and has a weapon, it
/// pursues the nearest target to which it can plan a way. Else it does
/// nothing.
pub open spec fn responded(
    before: &Robot,
    after: &Robot,
    grid: &Grid,
    response: Option<ProcessResult>,
) -> bool {
    &&& after.known_cells == before.known_cells
    &&& after.visible_others == before.visible_others
    &&& after.visible_valuables == before.visible_valuables
    &&& after.active_process == before.active_process
    &&& after.movement_queue == before.movement_queue
    &&& after.modules == before.modules
    &&& after.clock == before.clock
    &&& after.data == (RobotData { status_text: after.data.status_text, ..before.data })
    &&& match nearest_threat(before, grid) {
        Some(c) => {
            &&& after.data.status_text@ == status_after(
                before.data.status_text@,
                must_flee_text(c),
            )
            &&& match flight_from(after, grid, c) {
                Some(flight) => response == Some(flight),
                None => response == (if weapon_max_damage(before.modules.m_weapons@) != 0 {
                    pursuit_of_targets(after, grid)
                } else {
                    None
                }),
            }
        },
        None => {
            &&& *after == *before
            &&& response == (if weapon_max_damage(before.modules.m_weapons@) != 0 {
                pursuit_of_targets(before, grid)
            } else {
                None
            })
        },
    }
}

/// The status of a robot that runs from an attacker.
pub open spec fn running_away_text(d: Dir) -> Seq<char> {
    "Running away from attacker at "@ + dir_text(d)
}

impl Robot {
    /// The robots in view that pass a test, in the order in which they were
    /// seen.
    fn others_such(&self, threats: bool) -> (found: Vec<Coords>)
        ensures
            found@ == coords_of_robots(
                self.visible_others@.filter(
                    if threats {
                        is_threat()
                    } else {
                        is_target()
                    },
                ),
            ),
    {
        let ghost test = if threats {
            is_threat()
        } else {
            is_target()
        };
        let mut found: Vec<Coords> = Vec::new();
        let mut i: usize = 0;
        proof {
            assert(self.visible_others@.take(0).filter(test) =~= Seq::<VisibleRobot>::empty());
        }
        while i < self.visible_others.len()
            invariant
                i <= self.visible_others.len(),
                test == (if threats {
                    is_threat()
                } else {
                    is_target()
                }),
                found@ == coords_of_robots(self.visible_others@.take(i as int).filter(test)),
            decreases self.visible_others.len() - i,
        {
            let other = self.visible_others[i];
            let ghost before = self.visible_others@.take(i as int).filter(test);
            proof {
                self.visible_others@.lemma_take_succ_push(i as int);
                self.visible_others@.take(i as int).lemma_filter_push(other, test);
            }
            let wanted = if threats {
                other.threat_level == ThreatLevel::Stronger || other.threat_level
                    == ThreatLevel::Unknown
            } else {
                other.threat_level == ThreatLevel::Weaker || other.threat_level
                    == ThreatLevel::Equal
            };
            if wanted {
                found.push(other.coords);
                proof {
                    assert(found@ =~= coords_of_robots(before.push(other)));
                }
            }
            i = i + 1;
        }
        proof {
            self.visible_others@.lemma_take_len();
        }
        found
    }

    /// The id of the last robot in view that stands at `c`.
    fn robot_seen_at(&self, c: &Coords) -> (id: Option<i64>)
        ensures
            id == last_robot_at(self.visible_others@, *c),
    {
        let mut id: Option<i64> = None;
        let mut i: usize = 0;
        while i < self.visible_others.len()
            invariant
                i <= self.visible_others.len(),
                id == last_robot_at(self.visible_others@.take(i as int), *c),
            decreases self.visible_others.len() - i,
        {
            let other = self.visible_others[i];
            proof {
                assert(self.visible_others@.take(i + 1).drop_last() =~= self.visible_others@.take(
                    i as int,
                ));
            }
            if other.coords.q == c.q && other.coords.r == c.r {
                id = Some(other.robot_id);
            }
            i = i + 1;
        }
        proof {
            assert(self.visible_others@.take(self.visible_others.len() as int)
                =~= self.visible_others@);
        }
        id
    }

    /// The positions of the cells that the robot knows and on which it saw
    /// no other robot, in the order in which it remembers them.
    pub fn known_unoccupied_coords(&self, grid: &Grid) -> (coords: Vec<Coords>)
        ensures
            coords@ == free_known_coords(self, grid),
    {
        let free = self.get_known_unoccupied_cells(grid);
        let ghost test = is_free_known(self, grid);
        let mut coords: Vec<Coords> = Vec::new();
        let mut i: usize = 0;
        proof {
            assert(self.known_cells@.take(0).filter(test) =~= Seq::<RobotKnownCell>::empty());
        }
        while i < self.known_cells.len()
            invariant
                i <= self.known_cells.len(),
                test == is_free_known(self, grid),
                free@ == known_free_map(
                    self.known_cells@,
                    self.visible_others@,
                    self.coords(),
                    grid.cells@,
                ),
                coords@.len() == self.known_cells@.take(i as int).filter(test).len(),
                forall|k: int|
                    0 <= k < coords@.len() ==> coords@[k] == self.known_cells@.take(
                        i as int,
                    ).filter(test)[k].coords(),
            decreases self.known_cells.len() - i,
        {
            let cell = self.known_cells[i];
            let c = Coords { q: cell.q, r: cell.r };
            proof {
                self.known_cells@.lemma_take_succ_push(i as int);
                self.known_cells@.take(i as int).lemma_filter_push(cell, test);
            }
            if free.contains_key(&c) {
                coords.push(c);
            }
            i = i + 1;
        }
        proof {
            self.known_cells@.lemma_take_len();
            assert(coords@ =~= free_known_coords(self, grid));
        }
        coords
    }

    /// Flee to the farthest point from the given coords
    pub fn flee_from_coords(&self, grid: &Grid, threat_coords: &Coords) -> (flight: Option<
        ProcessResult,
    >)
        requires
            cells_consistent(grid.cells@),
        ensures
            flight == flight_from(self, grid, *threat_coords),
    {
        let candidates = self.known_unoccupied_coords(grid);
        let flee_coords = find_farthest_coords(self, grid, candidates, true, Some(threat_coords));

        match flee_coords {
            Some(c) => Some(ProcessResult::TransitionToFlee(c, self.data.orientation)),
            None => None,
        }
    }

    /// Check to see if we scanned some threats.  If so, transition to flee
    pub fn check_for_threats(&mut self, grid: &Grid) -> (flight: Option<ProcessResult>)
        requires
            cells_consistent(grid.cells@),
        ensures
            match nearest_threat(old(self), grid) {
                None => flight is None && *final(self) == *old(self),
                Some(c) => {
                    &&& final(self).data.status_text@ == status_after(
                        old(self).data.status_text@,
                        must_flee_text(c),
                    )
                    &&& *final(self) == old(self).with_data(
                        RobotData { status_text: final(self).data.status_text, ..old(self).data },
                    )
                    &&& flight == flight_from(final(self), grid, c)
                },
            },
    {
        let threats = self.others_such(true);
        let closest_threat_coords = find_closest_coords(self, grid, threats, false);

        match closest_threat_coords {
            None => None,
            Some(c) => {
                let mut status = String::from_str("Must flee from ");
                let place = coords_status(c);
                status.append(place.as_str());
                self.set_status_text(status.as_str());
                self.flee_from_coords(grid, &c)
            },
        }
    }

    /// Check to see if there are targets we should pursue
    pub fn check_for_targets(&self, grid: &Grid) -> (pursuit: Option<ProcessResult>)
        requires
            cells_consistent(grid.cells@),
        ensures
            pursuit == pursuit_of_targets(self, grid),
    {
        let targets = self.others_such(false);
        let closest_target_coords = find_closest_coords(self, grid, targets, false);

        match closest_target_coords {
            None => None,
            Some(c) => {
                let path_to_coords = find_path(self, grid, c, true);
                if path_to_coords.is_err() {
                    return None;
                }
                match self.robot_seen_at(&c) {
                    Some(id) => Some(ProcessResult::TransitionToPursue(id)),
                    None => None,
                }
            },
        }
    }

    /// Respond to scanned robots by fleeing, attacking, or ignoring
    pub fn respond_to_others(&mut self, grid: &Grid) -> (response: Option<ProcessResult>)
        requires
            cells_consistent(grid.cells@),
        ensures
            responded(old(self), final(self), grid, response),
    {
        // If we just scanned a robot of stronger or unknown capabilites,
        // we want to flee
        if let Some(response) = self.check_for_threats(grid) {
            return Some(response);
        }
        let weapon_power = WeaponModule::get_max_damage(self.modules.m_weapons.as_str());

        if weapon_power != 0 {
            if let Some(response) = self.check_for_targets(grid) {
                return Some(response);
            }
        }
        None
    }

    /// Respond to an attack: a robot that pursues another stays its course;
    /// any other flees from the place two steps off in the direction from
    /// which it was hit.
    pub fn respond_to_attack(&mut self, grid: &Grid) -> (flight: Option<ProcessResult>)
        requires
            old(self).wf(),
            cells_consistent(grid.cells@),
        ensures
            final(self).wf(),
            fled_attack(old(self), final(self), grid, flight),
    {
        // if I'm in battle already, then I'm not going to flee!
        if self.is_pursuing() {
            return None;
        }
        let attacker_dir: Dir = self.get_attack_dir();
        proof {
            lemma_step_near(self.coords(), attacker_dir, 2);
        }
        let coords_toward_attacker = self.get_coords().to(&attacker_dir, 2);
        let mut status = String::from_str("Running away from attacker at ");
        status.append(dir_status(attacker_dir));
        self.set_status_text(status.as_str());

        return self.flee_from_coords(grid, &coords_toward_attacker);
    }
}

} // verus!
