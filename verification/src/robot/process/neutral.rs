//! Neutral: looking round, and deciding what to do next.

use vstd::prelude::*;

use crate::grid::coords::{Coords, Dir};
use crate::grid::edge::EdgeType;
use crate::grid::grid::{cells_consistent, lemma_step_near, Grid};
use crate::grid::utils::traversal::{
    closest_goal, find_closest_coords, goals_among, is_goal, nearest_among,
};
use crate::robot::behaviors::{free_known_coords, responded};
use crate::robot::modules::collector::{collection_max, CollectorModule};
use crate::robot::modules::scanner::scanner_power_usage;
use crate::robot::process::scan::{Scan, VisibleRobot, VisibleValuable};
use crate::robot::process::ProcessResult;
use crate::robot::robot::{seen_at, status_after, Robot, RobotData};
use crate::utils::shuffle_items;

verus! {

/// Whether the side `d` of the known cell at `c` leads out of what the
/// robot knows: the side is open, the cell behind it is not among the
/// positions `known`, and the robot saw no other robot on either cell.
pub open spec fn leads_out(robot: &Robot, grid: &Grid, known: Seq<Coords>, c: Coords, d: Dir) -> bool {
    &&& grid.cells@.contains_key(c)
    &&& grid.cells@[c].side(d) != EdgeType::Wall
    &&& !known.contains(c.step(d, 1))
    &&& !seen_at(robot.visible_others@, c)
    &&& !seen_at(robot.visible_others@, c.step(d, 1))
}

/// The sides of the cell at `c` that lead out of what the robot knows, each
/// with the cell, in the order `order` of the directions.
pub open spec fn ways_out_of(
    robot: &Robot,
    grid: &Grid,
    known: Seq<Coords>,
    c: Coords,
    order: Seq<Dir>,
) -> Seq<(Coords, Dir)>
    decreases order.len(),
{
    if order.len() == 0 {
        Seq::empty()
    } else {
        let before = ways_out_of(robot, grid, known, c, order.drop_last());
        if leads_out(robot, grid, known, c, order.last()) {
            before.push((c, order.last()))
        } else {
            before
        }
    }
}

/// The sides that lead out of what the robot knows from the first `n` of
/// the positions `known`.
pub open spec fn ways_out(
    robot: &Robot,
    grid: &Grid,
    known: Seq<Coords>,
    n: int,
    order: Seq<Dir>,
) -> Seq<(Coords, Dir)>
    decreases n,
{
    if n <= 0 {
        Seq::empty()
    } else {
        ways_out(robot, grid, known, n - 1, order) + ways_out_of(
            robot,
            grid,
            known,
            known[n - 1],
            order,
        )
    }
}

/// The cells of a list of ways out.
pub open spec fn cells_of_ways(ways: Seq<(Coords, Dir)>) -> Seq<Coords> {
    Seq::new(ways.len(), |i: int| ways[i].0)
}

/// Where a robot with nothing else to do goes: to the nearest cell it knows
/// from which a side leads out of what it knows, to face that side; where
/// nothing leads out, to the first of the positions `known`, to face the
/// first direction of `order`; and nowhere where it knows no position.
pub open spec fn explore_choice(
    robot: &Robot,
    grid: &Grid,
    known: Seq<Coords>,
    order: Seq<Dir>,
) -> ProcessResult {
    let ways = ways_out(robot, grid, known, known.len() as int, order);
    if ways.len() > 0 {
        let best = ways[nearest_among(cells_of_ways(ways), robot.coords(), ways.len() as int)];
        ProcessResult::TransitionToMove(best.0, best.1, false)
    } else if known.len() > 0 {
        ProcessResult::TransitionToMove(
            known[0],
            if order.len() > 0 {
                order[0]
            } else {
                robot.data.orientation
            },
            false,
        )
    } else {
        ProcessResult::Okay
    }
}

/// Whether no robot of a list stands on the valuable.
pub open spec fn is_unguarded(others: Seq<VisibleRobot>) -> spec_fn(VisibleValuable) -> bool {
    |v: VisibleValuable| !seen_at(others, v.coords)
}

/// Where the valuables of a list lie.
pub open spec fn coords_of_valuables(valuables: Seq<VisibleValuable>) -> Seq<Coords> {
    Seq::new(valuables.len(), |i: int| valuables[i].coords)
}

/// The answer to the robots in view that a step stands for: the step itself
/// where it is a flight or a pursuit, and none else.
pub open spec fn response_of(step: ProcessResult) -> Option<ProcessResult> {
    match step {
        ProcessResult::TransitionToFlee(_, _) => Some(step),
        ProcessResult::TransitionToPursue(_) => Some(step),
        _ => None,
    }
}

/// What an idle robot does that has looked round, with the robot as it was
/// before, as the scan left it and as it answered to the robots in view:
/// it answers to the robots; else it goes for the nearest valuable in its
/// reach on which it saw no robot, to collect it where it stands on it;
/// else it goes exploring.
pub open spec fn idled(
    before: &Robot,
    seen: &Robot,
    after: &Robot,
    grid: &Grid,
    step: ProcessResult,
) -> bool {
    &&& Scan::saw(before, seen, grid)
    &&& responded(seen, after, grid, response_of(step))
    &&& response_of(step) is None ==> match closest_goal(
        after,
        grid,
        coords_of_valuables(seen.visible_valuables@.filter(is_unguarded(seen.visible_others@))),
        true,
    ) {
        Some(c) => if c == before.coords() {
            step == ProcessResult::TransitionToCollect
        } else {
            step matches ProcessResult::TransitionToMove(to, _, spin) && to == c && !spin
        },
        None => Neutral::explores(after, grid, step),
    }
}

/// What the start of idling makes of a robot: the status tells of it, and
/// the robot pursues nobody any more.
pub open spec fn settled_down(before: &Robot, after: &Robot) -> bool {
    &&& after.data.status_text@ == status_after(before.data.status_text@, "I'm idle."@)
    &&& *after == before.with_data(
        RobotData {
            status_text: after.data.status_text,
            pursuit_id: -1i64,
            pursuit_last_q: before.data.q,
            pursuit_last_r: before.data.r,
            ..before.data
        },
    )
}

/// What a tick of idling makes of a robot. A robot that can carry no more
/// calls for extraction. A robot without the power for a scan does nothing.
/// Any other looks round and does what an idle robot does that has looked
/// round.
pub open spec fn idle_tick(before: &Robot, after: &Robot, grid: &Grid, step: ProcessResult) -> bool {
    if before.data.val_inventory >= collection_max(before.modules.m_collector@) {
        step == ProcessResult::TransitionToExfiltrate && *after == *before
    } else if before.data.power < scanner_power_usage(before.modules.m_scanner@) {
        step == ProcessResult::OutOfPower && *after == *before
    } else {
        idled(
            before,
            &after.with_data(RobotData { status_text: before.data.status_text, ..after.data }),
            after,
            grid,
            step,
        )
    }
}

/// What a step of an idle robot can come to.
pub open spec fn is_neutral_outcome(step: ProcessResult) -> bool {
    match step {
        ProcessResult::Okay => true,
        ProcessResult::OutOfPower => true,
        ProcessResult::TransitionToExfiltrate => true,
        ProcessResult::TransitionToCollect => true,
        ProcessResult::TransitionToMove(_, _, spin) => !spin,
        ProcessResult::TransitionToFlee(_, _) => true,
        ProcessResult::TransitionToPursue(_) => true,
        _ => false,
    }
}

/// The "Neutral" process is when there is no active fleeing, mining, or exploring going on
pub struct Neutral {}

impl Neutral {
    /// Main run of the Neutral process: a robot that can carry no more
    /// calls for extraction. Any other looks round; it answers to the
    /// robots it sees, else it goes for the nearest valuable in reach on
    /// which no robot stands, else it goes exploring.
    pub fn run(robot: &mut Robot, grid: &Grid) -> (step: ProcessResult)
        requires
            old(robot).wf(),
            cells_consistent(grid.cells@),
        ensures
            final(robot).wf(),
            final(robot).modules == old(robot).modules,
            final(robot).active_process == old(robot).active_process,
            final(robot).movement_queue == old(robot).movement_queue,
            final(robot).data == (RobotData {
                power: final(robot).data.power,
                status_text: final(robot).data.status_text,
                ..old(robot).data
            }),
            final(robot).data.power <= old(robot).data.power,
            is_neutral_outcome(step),
            step == ProcessResult::TransitionToExfiltrate <==> old(robot).data.val_inventory
                >= collection_max(old(robot).modules.m_collector@),
            step == ProcessResult::TransitionToExfiltrate ==> *final(robot) == *old(robot),
            step == ProcessResult::OutOfPower <==> old(robot).data.val_inventory < collection_max(
                old(robot).modules.m_collector@,
            ) && old(robot).data.power < scanner_power_usage(old(robot).modules.m_scanner@),
            step == ProcessResult::OutOfPower ==> *final(robot) == *old(robot),
            step == ProcessResult::TransitionToCollect ==> exists|i: int|
                0 <= i < final(robot).visible_valuables@.len() && (
                #[trigger] final(robot).visible_valuables@[i]).coords == old(robot).coords(),
            idle_tick(old(robot), final(robot), grid, step),
    {
        // see if it is time to exfiltrate
        let max_val_inventory = CollectorModule::get_collection_max(
            robot.modules.m_collector.as_str(),
        );
        if robot.data.val_inventory >= max_val_inventory {
            return ProcessResult::TransitionToExfiltrate;
        }
        let robot_coords = Coords { q: robot.data.q, r: robot.data.r };

        let scan_results = Scan::run(robot, grid);

        let (visible_robots, visible_valuables) = match scan_results {
            ProcessResult::ScannedCells(results) => (
                results.visible_robots,
                results.visible_valuables,
            ),
            _ => {
                return ProcessResult::OutOfPower;
            },
        };

        if let Some(response) = robot.respond_to_others(grid) {
            return response;
        }
        // filter out valuables that have a robot sitting on them

        let unguarded = Self::unguarded_valuables(&visible_robots, &visible_valuables);

        if unguarded.len() > 0 {
            // find the closest reachable valuables
            let ghost places = unguarded@;
            let closest_coords = find_closest_coords(robot, grid, unguarded, true);

            // If on valuables, switch to Collect
            if let Some(closest_coords) = closest_coords {
                if closest_coords.q == robot_coords.q && closest_coords.r == robot_coords.r {
                    proof {
                        let goals = places.filter(is_goal(robot, grid, true));
                        crate::grid::utils::traversal::lemma_nearest_among(
                            goals,
                            robot.coords(),
                            goals.len() as int,
                        );
                        let k = nearest_among(goals, robot.coords(), goals.len() as int);
                        assert(goals.contains(goals[k]));
                        places.lemma_filter_contains_rev(is_goal(robot, grid, true), goals[k]);
                        let j = choose|j: int| 0 <= j < places.len() && places[j] == closest_coords;
                        let kept = visible_valuables@.filter(is_unguarded(visible_robots@));
                        assert(kept.contains(kept[j]));
                        visible_valuables@.lemma_filter_contains_rev(
                            is_unguarded(visible_robots@),
                            kept[j],
                        );
                        let i = choose|i: int|
                            0 <= i < visible_valuables@.len() && visible_valuables@[i] == kept[j];
                        assert(robot.visible_valuables@[i].coords == robot_coords);
                    }
                    return ProcessResult::TransitionToCollect;
                }
                return ProcessResult::TransitionToMove(closest_coords, Dir::get_random(), false);
            }
        }
        // With nothing else to do, see what the default move is for neutral

        Neutral::next(robot, grid)
    }

    /// initialize this process; clear any previous persuit details
    pub fn init(robot: &mut Robot) -> (started: ProcessResult)
        ensures
            started == ProcessResult::Okay,
            settled_down(old(robot), final(robot)),
            old(robot).wf() ==> final(robot).wf(),
    {
        robot.set_status_text("I'm idle.");
        let here = robot.get_coords();
        robot.update_pursuit_details(-1, &here);
        ProcessResult::Okay
    }

    /// Where the valuables lie on which no robot of `robots` stands, in the
    /// order of the valuables.
    pub fn unguarded_valuables(robots: &Vec<VisibleRobot>, valuables: &Vec<VisibleValuable>) -> (places:
        Vec<Coords>)
        ensures
            places@ == coords_of_valuables(valuables@.filter(is_unguarded(robots@))),
    {
        let mut places: Vec<Coords> = Vec::new();
        let mut i: usize = 0;
        proof {
            assert(valuables@.take(0).filter(is_unguarded(robots@)) =~= Seq::<
                VisibleValuable,
            >::empty());
        }
        while i < valuables.len()
            invariant
                i <= valuables.len(),
                places@ == coords_of_valuables(
                    valuables@.take(i as int).filter(is_unguarded(robots@)),
                ),
            decreases valuables.len() - i,
        {
            let v = valuables[i];
            let ghost before = valuables@.take(i as int).filter(is_unguarded(robots@));
            proof {
                valuables@.lemma_take_succ_push(i as int);
                valuables@.take(i as int).lemma_filter_push(v, is_unguarded(robots@));
            }
            let mut guarded = false;
            let mut j: usize = 0;
            while j < robots.len()
                invariant
                    j <= robots.len(),
                    guarded == exists|k: int|
                        0 <= k < j && (#[trigger] robots@[k]).coords == v.coords,
                decreases robots.len() - j,
            {
                let other = robots[j];
                if other.coords.q == v.coords.q && other.coords.r == v.coords.r {
                    guarded = true;
                }
                j = j + 1;
            }
            if !guarded {
                places.push(v.coords);
                proof {
                    assert(places@ =~= coords_of_valuables(before.push(v)));
                }
            }
            i = i + 1;
        }
        proof {
            valuables@.lemma_take_len();
        }
        places
    }

    /// Decide what to do next
    fn next(robot: &Robot, grid: &Grid) -> (step: ProcessResult)
        requires
            cells_consistent(grid.cells@),
        ensures
            Self::explores(robot, grid, step),
    {
        // find random unexplore cell
        return Neutral::goto_random_unexplored_cell(robot, grid);
    }

    /// Whether a step is one that an exploring robot may take: the choice it
    /// makes for some order of the cells it knows and can reach and some
    /// order of the six directions.
    pub open spec fn explores(robot: &Robot, grid: &Grid, step: ProcessResult) -> bool {
        exists|known: Seq<Coords>, order: Seq<Dir>|
            known.to_multiset() == free_known_coords(robot, grid).filter(
                is_goal(robot, grid, true),
            ).to_multiset() && order.to_multiset() == Dir::all().to_multiset() && step
                == #[trigger] explore_choice(robot, grid, known, order)
    }

    /// Picks at random where to explore: the cells that the robot knows and
    /// can reach, and the six directions, are each put in a random order,
    /// and the choice is made over these.
    pub fn goto_random_unexplored_cell(robot: &Robot, grid: &Grid) -> (step: ProcessResult)
        requires
            cells_consistent(grid.cells@),
        ensures
            Self::explores(robot, grid, step),
    {
        // we will look for open walls in random order
        let mut search_order: Vec<Dir> = Dir::get_vec();
        shuffle_items(&mut search_order);

        // make a list of all the coordinates we know about
        let known_cells = robot.known_unoccupied_coords(grid);
        let mut known_coords = goals_among(robot, grid, &known_cells, true);

        // we will search known coords in random order
        shuffle_items(&mut known_coords);

        Self::pick_unexplored(robot, grid, &known_coords, &search_order)
    }

    /// Whether a list holds a position.
    fn holds(coords: &Vec<Coords>, c: &Coords) -> (found: bool)
        ensures
            found == coords@.contains(*c),
    {
        let mut i: usize = 0;
        while i < coords.len()
            invariant
                i <= coords.len(),
                forall|k: int| 0 <= k < i ==> coords@[k] != *c,
            decreases coords.len() - i,
        {
            let x = coords[i];
            if x.q == c.q && x.r == c.r {
                return true;
            }
            i = i + 1;
        }
        false
    }

    /// The sides of the cell at `c` that lead out of what the robot knows.
    fn ways_out_of_cell(
        robot: &Robot,
        grid: &Grid,
        known_coords: &Vec<Coords>,
        c: Coords,
        search_order: &Vec<Dir>,
        ways: &mut Vec<(Coords, Dir)>,
    )
        requires
            cells_consistent(grid.cells@),
        ensures
            final(ways)@ == old(ways)@ + ways_out_of(robot, grid, known_coords@, c, search_order@),
    {
        let cell = match grid.cells.get(&c) {
            Some(cell) => *cell,
            None => {
                proof {
                    lemma_no_way_out(robot, grid, known_coords@, c, search_order@);
                    assert(ways@ =~= old(ways)@ + Seq::<(Coords, Dir)>::empty());
                }
                return ;
            },
        };
        let here_taken = robot.known_occupied_coords(&c);
        let mut s: usize = 0;
        proof {
            assert(ways@ =~= old(ways)@ + ways_out_of(
                robot,
                grid,
                known_coords@,
                c,
                search_order@.take(0),
            ));
        }
        // check the edges in random order; if open, see if we know the cell beyond it
        while s < search_order.len()
            invariant
                s <= search_order.len(),
                cells_consistent(grid.cells@),
                grid.cells@.contains_key(c),
                cell == grid.cells@[c],
                here_taken == seen_at(robot.visible_others@, c),
                ways@ == old(ways)@ + ways_out_of(
                    robot,
                    grid,
                    known_coords@,
                    c,
                    search_order@.take(s as int),
                ),
            decreases search_order.len() - s,
        {
            let orientation = search_order[s];
            proof {
                assert(search_order@.take(s + 1).drop_last() =~= search_order@.take(s as int));
                lemma_step_near(c, orientation, 1);
            }
            let ghost before = ways@;
            if cell.get_side(orientation) != EdgeType::Wall {
                // we will test the coords adjacent to the known coords
                let test_coords = c.to(&orientation, 1);

                // we will skip testing this if the test coords are also known
                // or if we know the coords are occupied by a robot we know about
                if !Self::holds(known_coords, &test_coords) && !here_taken
                    && !robot.known_occupied_coords(&test_coords) {
                    ways.push((c, orientation));
                }
            }
            proof {
                let sofar = ways_out_of(robot, grid, known_coords@, c, search_order@.take(s as int));
                if leads_out(robot, grid, known_coords@, c, orientation) {
                    assert(ways@ =~= old(ways)@ + sofar.push((c, orientation)));
                }
            }
            s = s + 1;
        }
        proof {
            assert(search_order@.take(search_order.len() as int) =~= search_order@);
        }
    }

    /// Chooses where to explore, the cells that the robot knows and the
    /// directions being taken in the orders given.
    pub fn pick_unexplored(
        robot: &Robot,
        grid: &Grid,
        known_coords: &Vec<Coords>,
        search_order: &Vec<Dir>,
    ) -> (step: ProcessResult)
        requires
            cells_consistent(grid.cells@),
        ensures
            step == explore_choice(robot, grid, known_coords@, search_order@),
    {
        let robot_coords = Coords { q: robot.data.q, r: robot.data.r };
        let mut ways: Vec<(Coords, Dir)> = Vec::new();
        let mut i: usize = 0;
        while i < known_coords.len()
            invariant
                i <= known_coords.len(),
                cells_consistent(grid.cells@),
                ways@ == ways_out(robot, grid, known_coords@, i as int, search_order@),
            decreases known_coords.len() - i,
        {
            Self::ways_out_of_cell(
                robot,
                grid,
                known_coords,
                known_coords[i],
                search_order,
                &mut ways,
            );
            i = i + 1;
        }

        // of the ways out, we pick the closest
        if ways.len() > 0 {
            let mut best: usize = 0;
            let mut k: usize = 1;
            while k < ways.len()
                invariant
                    1 <= k <= ways.len(),
                    0 <= best < k,
                    robot_coords == robot.coords(),
                    best == nearest_among(cells_of_ways(ways@), robot_coords, k as int),
                decreases ways.len() - k,
            {
                if robot_coords.wide_distance_to(&ways[k].0) < robot_coords.wide_distance_to(
                    &ways[best].0,
                ) {
                    best = k;
                }
                k = k + 1;
            }
            return ProcessResult::TransitionToMove(ways[best].0, ways[best].1, false);
        }
        // since we didn't find anything unknown, pick a random place

        if known_coords.len() > 0 {
            let facing = if search_order.len() > 0 {
                search_order[0]
            } else {
                robot.data.orientation
            };
            return ProcessResult::TransitionToMove(known_coords[0], facing, false);
        }
        ProcessResult::Okay
    }
}

/// No side leads out from a position at which no cell lies.
proof fn lemma_no_way_out(robot: &Robot, grid: &Grid, known: Seq<Coords>, c: Coords, order: Seq<Dir>)
    requires
        !grid.cells@.contains_key(c),
    ensures
        ways_out_of(robot, grid, known, c, order) == Seq::<(Coords, Dir)>::empty(),
    decreases order.len(),
{
    if order.len() > 0 {
        lemma_no_way_out(robot, grid, known, c, order.drop_last());
    }
}

} // verus!
