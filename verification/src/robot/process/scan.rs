//! Scanning: what a robot sees of the cells, robots and valuables round it.

use vstd::prelude::*;

use crate::grid::coord_map::CoordMap;
use crate::grid::coords::Coords;
use crate::grid::grid::{
    cells_consistent,
    cells_of_rows,
    lemma_cells_of_rows,
    lemma_distance_fits,
    lemma_present_cells_are_cells,
    present_cells,
    sweep,
    within_limit,
    Grid,
    GridCell,
};
use crate::grid::utils::traversal::{is_reachable, reachable_within};
use crate::robot::modules::scanner::{
    scanner_accuracy,
    scanner_fov,
    scanner_power_usage,
    scanner_range,
    ScannerModule,
};
use crate::robot::modules::weapon::{weapon_max_damage, WeaponModule};
use crate::robot::process::ProcessResult;
use crate::robot::robot::{limited, merged_cells, Robot, RobotData, RobotKnownCell};
use crate::utils::random_in_range;

verus! {

/// How another robot's weapon compares with one's own, as far as the scanner
/// could tell.
#[derive(Clone, Copy, Debug, PartialEq, Eq, Structural)]
pub enum ThreatLevel {
    Unknown,
    Weaker,
    Stronger,
    Equal,
}

/// Holds information about robots visible from the last scan
#[derive(Clone, Copy, Debug, PartialEq, Eq, Structural)]
pub struct VisibleRobot {
    pub robot_id: i64,
    pub coords: Coords,
    pub threat_level: ThreatLevel,
}

/// A valuable seen in the last scan.
#[derive(Clone, Copy, Debug, PartialEq, Eq, Structural)]
pub struct VisibleValuable {
    pub valuable_id: i64,
    pub coords: Coords,
}

/// What one scan found.
#[derive(Clone, Debug, PartialEq)]
pub struct ScanResults {
    pub scanned_cells: Vec<Coords>,
    pub visible_robots: Vec<VisibleRobot>,
    pub visible_valuables: Vec<VisibleValuable>,
}

/// How another robot's weapon compares with one's own: unknown where its
/// strength is not on record.
pub open spec fn rated(other_strength: Option<i32>, own: i32) -> ThreatLevel {
    match other_strength {
        None => ThreatLevel::Unknown,
        Some(other) => if other > own {
            ThreatLevel::Stronger
        } else if other < own {
            ThreatLevel::Weaker
        } else {
            ThreatLevel::Equal
        },
    }
}

/// What a scanner of the given accuracy tells of another robot's weapon
/// when the draw for the reading is `roll`: nothing where the draw lies
/// above the accuracy, else how the weapon compares.
pub open spec fn threat_of(other_strength: Option<i32>, own: i32, roll: i32, accuracy: i32) -> ThreatLevel {
    if other_strength is Some && roll > accuracy {
        ThreatLevel::Unknown
    } else {
        rated(other_strength, own)
    }
}

/// Whether the robot at `me` sees the cell at a position of the cells in its
/// view: its own cell, and every cell to which a way through open sides
/// leads that is no longer than the cell is far.
pub open spec fn in_sight(view: Map<Coords, GridCell>, me: Coords) -> spec_fn(GridCell) -> bool {
    |cell: GridCell|
        me.distance(cell.coords()) == 0 || reachable_within(
            view,
            me,
            cell.coords(),
            me.distance(cell.coords()),
        )
}

/// The cells in the view of a scanner: those that lie in its field of view
/// and range, as the sweep comes by them.
pub open spec fn cells_in_view(robot: &Robot, grid: &Grid) -> Seq<GridCell> {
    present_cells(
        grid.cells@,
        sweep(
            robot.coords(),
            robot.data.orientation,
            scanner_fov(robot.modules.m_scanner@),
            scanner_range(robot.modules.m_scanner@),
        ),
    )
}

/// The cells that a robot sees: of the cells in the view of its scanner,
/// those to which the way is open.
pub open spec fn cells_in_sight(robot: &Robot, grid: &Grid) -> Seq<GridCell> {
    cells_in_view(robot, grid).filter(
        in_sight(cells_of_rows(cells_in_view(robot, grid)), robot.coords()),
    )
}

/// The stamp of the `i`-th cell that a robot sees after it has counted
/// `clock` sightings.
pub open spec fn stamp(clock: u64, i: int) -> u64 {
    if clock + i > u64::MAX {
        u64::MAX
    } else {
        (clock + i) as u64
    }
}

/// What a robot remembers of the cells that it sees, each stamped in turn.
pub open spec fn fresh_cells(robot_id: i64, clock: u64, seen: Seq<GridCell>) -> Seq<RobotKnownCell> {
    Seq::new(
        seen.len(),
        |i: int|
            RobotKnownCell {
                robot_id: robot_id,
                gridcell_id: seen[i].id,
                discovery_time: stamp(clock, i),
                q: seen[i].q,
                r: seen[i].r,
            },
    )
}

/// The positions of a list of cells.
pub open spec fn coords_of(seen: Seq<GridCell>) -> Seq<Coords> {
    Seq::new(seen.len(), |i: int| seen[i].coords())
}

/// The valuables that lie on the cells of a list, in the order of the list.
pub open spec fn valuables_on(valuables: Map<Coords, i64>, seen: Seq<GridCell>) -> Seq<VisibleValuable>
    decreases seen.len(),
{
    if seen.len() == 0 {
        Seq::empty()
    } else {
        let before = valuables_on(valuables, seen.drop_last());
        let c = seen.last().coords();
        if valuables.contains_key(c) {
            before.push(VisibleValuable { valuable_id: valuables[c], coords: c })
        } else {
            before
        }
    }
}

/// The other robots that stand on the cells of a list, in the order of the
/// list, each rated as if the scanner told its strength.
pub open spec fn robots_on(
    robots: Map<Coords, i64>,
    strengths: Map<i64, i32>,
    me: i64,
    own: i32,
    seen: Seq<GridCell>,
) -> Seq<VisibleRobot>
    decreases seen.len(),
{
    if seen.len() == 0 {
        Seq::empty()
    } else {
        let before = robots_on(robots, strengths, me, own, seen.drop_last());
        let c = seen.last().coords();
        if robots.contains_key(c) && robots[c] != me {
            before.push(
                VisibleRobot {
                    robot_id: robots[c],
                    coords: c,
                    threat_level: rated(
                        if strengths.contains_key(robots[c]) {
                            Some(strengths[robots[c]])
                        } else {
                            None
                        },
                        own,
                    ),
                },
            )
        } else {
            before
        }
    }
}

/// Whether a list of sightings by a scanner of the given accuracy names the
/// robots of `rated_list`, each where it stands, and says of each how it
/// compares or, where the scanner can miss, nothing.
pub open spec fn sights_robots(
    sighted: Seq<VisibleRobot>,
    rated_list: Seq<VisibleRobot>,
    accuracy: int,
) -> bool {
    &&& sighted.len() == rated_list.len()
    &&& forall|i: int|
        0 <= i < sighted.len() ==> {
            &&& (#[trigger] sighted[i]).robot_id == rated_list[i].robot_id
            &&& sighted[i].coords == rated_list[i].coords
            &&& (sighted[i].threat_level == rated_list[i].threat_level || (accuracy < 100
                && sighted[i].threat_level == ThreatLevel::Unknown))
        }
}

/// The scan of a robot's surroundings.
pub struct Scan {}

impl Scan {
    /// Tells what a scanner reads of another robot's weapon.
    pub fn assess(other_strength: Option<i32>, own: i32, roll: i32, accuracy: i32) -> (level:
        ThreatLevel)
        ensures
            level == threat_of(other_strength, own, roll, accuracy),
    {
        match other_strength {
            None => ThreatLevel::Unknown,
            Some(other) => {
                if roll > accuracy {
                    ThreatLevel::Unknown
                } else if other > own {
                    ThreatLevel::Stronger
                } else if other < own {
                    ThreatLevel::Weaker
                } else {
                    ThreatLevel::Equal
                }
            },
        }
    }

    /// The cells that the robot sees from where it stands.
    pub fn visible_cells(robot: &Robot, grid: &Grid) -> (seen: Vec<GridCell>)
        requires
            robot.wf(),
            cells_consistent(grid.cells@),
        ensures
            seen@ == cells_in_sight(robot, grid),
            forall|i: int|
                0 <= i < seen@.len() ==> grid.cells@.contains_key((#[trigger] seen@[i]).coords())
                    && grid.cells@[seen@[i].coords()] == seen@[i],
    {
        let our_coords = robot.get_coords();
        let fov = ScannerModule::get_fov(robot.modules.m_scanner.as_str());
        let range = ScannerModule::get_range(robot.modules.m_scanner.as_str());

        let cells = grid.get_cells(&our_coords, robot.data.orientation, fov, range);
        let ghost swept = sweep(our_coords, robot.data.orientation, fov as int, range as int);
        proof {
            assert forall|i: int| 0 <= i < cells@.len() implies within_limit(
                #[trigger] cells@[i].coords(),
            ) && grid.cells@.contains_key(cells@[i].coords()) && grid.cells@[cells@[i].coords()]
                == cells@[i] by {
                lemma_present_cells_are_cells(grid.cells@, swept, i);
            }
        }
        let mut cells_full: CoordMap<GridCell> = CoordMap::new();
        let mut i: usize = 0;
        while i < cells.len()
            invariant
                i <= cells.len(),
                cells_full@ == cells_of_rows(cells@.take(i as int)),
            decreases cells.len() - i,
        {
            let cell = cells[i];
            cells_full.insert(Coords { q: cell.q, r: cell.r }, cell);
            proof {
                assert(cells@.take(i + 1).drop_last() =~= cells@.take(i as int));
            }
            i = i + 1;
        }
        proof {
            assert(cells@.take(cells.len() as int) =~= cells@);
            lemma_cells_of_rows(cells@);
        }

        let mut seen: Vec<GridCell> = Vec::new();
        let mut k: usize = 0;
        proof {
            assert(cells@.take(0).filter(in_sight(cells_full@, our_coords)) =~= Seq::<
                GridCell,
            >::empty());
        }
        while k < cells.len()
            invariant
                k <= cells.len(),
                robot.wf(),
                our_coords == robot.coords(),
                cells_consistent(cells_full@),
                forall|i: int|
                    0 <= i < cells@.len() ==> within_limit((#[trigger] cells@[i]).coords())
                        && grid.cells@.contains_key(cells@[i].coords())
                        && grid.cells@[cells@[i].coords()] == cells@[i],
                seen@ == cells@.take(k as int).filter(in_sight(cells_full@, our_coords)),
                forall|i: int|
                    0 <= i < seen@.len() ==> grid.cells@.contains_key(
                        (#[trigger] seen@[i]).coords(),
                    ) && grid.cells@[seen@[i].coords()] == seen@[i],
            decreases cells.len() - k,
        {
            let cell = cells[k];
            let cell_coords = Coords { q: cell.q, r: cell.r };
            proof {
                assert(within_limit(cells@[k as int].coords()));
                lemma_distance_fits(our_coords, cell_coords);
            }
            let distance = our_coords.distance_to(&cell_coords);
            let visible = is_reachable(&our_coords, &cell_coords, &cells_full, distance);
            proof {
                cells@.lemma_take_succ_push(k as int);
                cells@.take(k as int).lemma_filter_push(cell, in_sight(cells_full@, our_coords));
            }

            // if visible (or is the location we are standing on), add it to known cells
            if distance == 0 || visible {
                seen.push(cell);
            }
            k = k + 1;
        }
        proof {
            cells@.lemma_take_len();
        }
        seen
    }

    /// The valuables that lie on the cells of a list.
    pub fn visible_valuables(grid: &Grid, seen: &Vec<GridCell>) -> (found: Vec<VisibleValuable>)
        ensures
            found@ == valuables_on(grid.valuables_locs@, seen@),
    {
        let mut found: Vec<VisibleValuable> = Vec::new();
        let mut i: usize = 0;
        while i < seen.len()
            invariant
                i <= seen.len(),
                found@ == valuables_on(grid.valuables_locs@, seen@.take(i as int)),
            decreases seen.len() - i,
        {
            let cell = seen[i];
            let coords = Coords { q: cell.q, r: cell.r };
            proof {
                assert(seen@.take(i + 1).drop_last() =~= seen@.take(i as int));
            }
            if let Some(valuable) = grid.get_valuable_id_by_loc(&coords) {
                found.push(VisibleValuable { valuable_id: *valuable, coords: coords });
            }
            i = i + 1;
        }
        proof {
            assert(seen@.take(seen.len() as int) =~= seen@);
        }
        found
    }

    /// The other robots that stand on the cells of a list, each with what
    /// the scanner tells of its weapon: nothing, or how it compares with the
    /// robot's own.
    pub fn visible_robots(robot: &Robot, grid: &Grid, seen: &Vec<GridCell>) -> (found: Vec<
        VisibleRobot,
    >)
        ensures
            sights_robots(
                found@,
                robots_on(
                    grid.robot_locs@,
                    grid.robot_strengths@,
                    robot.data.id,
                    weapon_max_damage(robot.modules.m_weapons@) as i32,
                    seen@,
                ),
                scanner_accuracy(robot.modules.m_scanner@),
            ),
    {
        broadcast use vstd::std_specs::hash::group_hash_axioms;

        let accuracy = ScannerModule::get_accuracy(robot.modules.m_scanner.as_str());
        let weapon_strength = WeaponModule::get_max_damage(robot.modules.m_weapons.as_str());
        let mut found: Vec<VisibleRobot> = Vec::new();
        let mut i: usize = 0;
        while i < seen.len()
            invariant
                i <= seen.len(),
                weapon_strength == weapon_max_damage(robot.modules.m_weapons@),
                accuracy == scanner_accuracy(robot.modules.m_scanner@),
                sights_robots(
                    found@,
                    robots_on(
                        grid.robot_locs@,
                        grid.robot_strengths@,
                        robot.data.id,
                        weapon_strength,
                        seen@.take(i as int),
                    ),
                    accuracy as int,
                ),
            decreases seen.len() - i,
        {
            let cell = seen[i];
            let coords = Coords { q: cell.q, r: cell.r };
            proof {
                assert(seen@.take(i + 1).drop_last() =~= seen@.take(i as int));
            }
            // also see if there is a robot in that cell
            let other_robot: Option<i64> = match grid.get_robot_id_by_loc(&coords) {
                Some(id) => Some(*id),
                None => None,
            };
            // if there is a robot on that cell (and it isn't this robot)...
            if let Some(other) = other_robot {
                if other != robot.data.id {
                    let other_strength: Option<i32> = match grid.robot_strengths.get(&other) {
                        Some(strength) => Some(*strength),
                        None => None,
                    };
                    let roll: i32 = if other_strength.is_some() {
                        random_in_range(0, 101)
                    } else {
                        0
                    };
                    let threat_level = Self::assess(other_strength, weapon_strength, roll, accuracy);
                    found.push(VisibleRobot { robot_id: other, coords: coords, threat_level });
                }
            }
            i = i + 1;
        }
        proof {
            assert(seen@.take(seen.len() as int) =~= seen@);
        }
        found
    }

    /// What the robot remembers of the cells of a list, each stamped in
    /// turn from the robot's count of sightings.
    pub fn remembered(robot: &Robot, seen: &Vec<GridCell>) -> (fresh: Vec<RobotKnownCell>)
        ensures
            fresh@ == fresh_cells(robot.data.id, robot.clock, seen@),
    {
        let mut fresh: Vec<RobotKnownCell> = Vec::new();
        let mut i: usize = 0;
        while i < seen.len()
            invariant
                i <= seen.len(),
                fresh@.len() == i,
                forall|k: int|
                    0 <= k < i ==> fresh@[k] == fresh_cells(robot.data.id, robot.clock, seen@)[k],
            decreases seen.len() - i,
        {
            let cell = seen[i];
            let time: u64 = if (i as u64) > u64::MAX - robot.clock {
                u64::MAX
            } else {
                robot.clock + i as u64
            };
            fresh.push(
                RobotKnownCell {
                    robot_id: robot.data.id,
                    gridcell_id: cell.id,
                    discovery_time: time,
                    q: cell.q,
                    r: cell.r,
                },
            );
            i = i + 1;
        }
        proof {
            assert(fresh@ =~= fresh_cells(robot.data.id, robot.clock, seen@));
        }
        fresh
    }

    /// The positions of the cells of a list.
    pub fn positions(seen: &Vec<GridCell>) -> (coords: Vec<Coords>)
        ensures
            coords@ == coords_of(seen@),
    {
        let mut coords: Vec<Coords> = Vec::new();
        let mut i: usize = 0;
        while i < seen.len()
            invariant
                i <= seen.len(),
                coords@.len() == i,
                forall|k: int| 0 <= k < i ==> coords@[k] == seen@[k].coords(),
            decreases seen.len() - i,
        {
            let cell = seen[i];
            coords.push(Coords { q: cell.q, r: cell.r });
            i = i + 1;
        }
        proof {
            assert(coords@ =~= coords_of(seen@));
        }
        coords
    }

    /// What a scan makes of a robot that has the power for it: the robot has
    /// paid for the scan, remembers the cells that it saw, each stamped in
    /// turn, and has the valuables and the other robots on these cells in
    /// view, each of the robots with what the scanner told of its weapon.
    pub open spec fn saw(before: &Robot, after: &Robot, grid: &Grid) -> bool {
        let seen = cells_in_sight(before, grid);
        &&& after.visible_valuables@ == valuables_on(grid.valuables_locs@, seen)
        &&& sights_robots(
            after.visible_others@,
            robots_on(
                grid.robot_locs@,
                grid.robot_strengths@,
                before.data.id,
                weapon_max_damage(before.modules.m_weapons@) as i32,
                seen,
            ),
            scanner_accuracy(before.modules.m_scanner@),
        )
        &&& after.known_cells@ == limited(
            merged_cells(before.known_cells@, fresh_cells(before.data.id, before.clock, seen)),
            before.memory_limit(),
        )
        &&& after.clock == stamp(before.clock, seen.len() as int)
        &&& after.data == (RobotData {
            power: (before.data.power - scanner_power_usage(before.modules.m_scanner@)) as i32,
            ..before.data
        })
        &&& after.modules == before.modules
        &&& after.active_process == before.active_process
        &&& after.movement_queue == before.movement_queue
    }

    /// Scans the robot's surroundings. A scan takes the power that the
    /// robot's scanner uses; a robot with less power does not scan. The
    /// robot remembers the cells that it sees, and takes the robots and the
    /// valuables on them as those in view.
    pub fn run(robot: &mut Robot, grid: &Grid) -> (scanned: ProcessResult)
        requires
            old(robot).wf(),
            cells_consistent(grid.cells@),
        ensures
            final(robot).wf(),
            old(robot).data.power < scanner_power_usage(old(robot).modules.m_scanner@) ==> scanned
                == ProcessResult::OutOfPower && *final(robot) == *old(robot),
            old(robot).data.power >= scanner_power_usage(old(robot).modules.m_scanner@) ==> {
                &&& scanned matches ProcessResult::ScannedCells(results)
                &&& results.scanned_cells@ == coords_of(cells_in_sight(old(robot), grid))
                &&& results.visible_robots@ == final(robot).visible_others@
                &&& results.visible_valuables@ == final(robot).visible_valuables@
                &&& Self::saw(old(robot), final(robot), grid)
            },
    {
        // make sure we have enough power to run the scanner
        let power_need = ScannerModule::get_power_usage(robot.modules.m_scanner.as_str());
        if robot.data.power < power_need {
            return ProcessResult::OutOfPower;
        }
        let seen = Self::visible_cells(robot, grid);
        let known_cells = Self::remembered(robot, &seen);
        let scanned_cells = Self::positions(&seen);
        let visible_robots = Self::visible_robots(robot, grid, &seen);
        let visible_valuables = Self::visible_valuables(grid, &seen);

        robot.use_power(power_need);
        robot.update_known_cells(known_cells);
        robot.clock = if (seen.len() as u64) > u64::MAX - robot.clock {
            u64::MAX
        } else {
            robot.clock + seen.len() as u64
        };
        robot.update_visible_others(&visible_robots);
        robot.update_visible_valuables(&visible_valuables);

        ProcessResult::ScannedCells(
            ScanResults {
                scanned_cells: scanned_cells,
                visible_robots: visible_robots,
                visible_valuables: visible_valuables,
            },
        )
    }

    /// A scan needs no preparation.
    pub fn init(robot: &mut Robot) -> (started: ProcessResult)
        ensures
            started == ProcessResult::Okay,
            *final(robot) == *old(robot),
    {
        ProcessResult::Okay
    }
}

} // verus!
