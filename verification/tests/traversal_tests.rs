use ares::grid::coord_map::CoordMap;
use ares::grid::coords::{Coords, CoordsAndDir, Dir};
use ares::grid::edge::EdgeType;
use ares::grid::grid::{Grid, GridCell};
use ares::grid::utils::traversal::{
    depth_to_path, find_closest_coords, find_farthest_coords, find_path, find_spin, flood_map,
    is_reachable, path_to_moves, FromStep, MoveStep,
};
use ares::robot::process::scan::{ThreatLevel, VisibleRobot};
use ares::robot::robot::{Robot, RobotKnownCell};

fn at(q: i32, r: i32) -> Coords {
    Coords { q, r }
}

/// Opens the edge between a cell and its neighbour, from both sides.
fn open(cells: &mut Vec<GridCell>, q: i32, r: i32, dir: Dir) {
    let there = at(q, r).to(&dir, 1);
    for cell in cells.iter_mut() {
        if (cell.q, cell.r) == (q, r) {
            cell.change_side(&dir, EdgeType::Open);
        }
        if (cell.q, cell.r) == (there.q, there.r) {
            cell.change_side(&dir.get_opposite(), EdgeType::Open);
        }
    }
}

/// The origin and its six neighbours. The origin is open upwards and to the
/// upper right; the three cells there are open from one to the next.
fn flower() -> Vec<GridCell> {
    let mut cells = vec![GridCell::new(0, &at(0, 0))];
    let mut id = 0;
    for dir in Dir::get_vec() {
        id += 1;
        cells.push(GridCell::new(id, &at(0, 0).to(&dir, 1)));
    }
    open(&mut cells, 0, 0, Dir::Orient0);
    open(&mut cells, 0, 0, Dir::Orient60);
    open(&mut cells, 0, 1, Dir::Orient120);
    open(&mut cells, 1, 0, Dir::Orient180);
    cells
}

fn map_of(cells: &Vec<GridCell>) -> CoordMap<GridCell> {
    let mut map = CoordMap::new();
    for cell in cells {
        map.insert(at(cell.q, cell.r), *cell);
    }
    map
}

fn knowing(robot: &mut Robot, cells: &Vec<GridCell>) {
    robot.known_cells = cells
        .iter()
        .enumerate()
        .map(|(i, c)| RobotKnownCell {
            robot_id: robot.data.id,
            gridcell_id: c.id,
            discovery_time: i as u64,
            q: c.q,
            r: c.r,
        })
        .collect();
}

#[test]
fn test_spins() {
    assert_eq!(find_spin(Dir::Orient0, Dir::Orient300), [MoveStep::Left]);

    assert_eq!(
        find_spin(Dir::Orient120, Dir::Orient0),
        [MoveStep::Left, MoveStep::Left]
    );

    assert_eq!(
        find_spin(Dir::Orient240, Dir::Orient0),
        [MoveStep::Right, MoveStep::Right]
    );

    assert_eq!(
        find_spin(Dir::Orient60, Dir::Orient240),
        [MoveStep::Right, MoveStep::Right, MoveStep::Right]
    );
}

#[test]
fn a_spin_turns_from_one_direction_to_the_other() {
    for from in Dir::get_vec() {
        for to in Dir::get_vec() {
            let moves = find_spin(from, to);
            assert!(moves.len() <= 3);
            let mut facing = from;
            for step in moves {
                facing = match step {
                    MoveStep::Left => facing.left(60),
                    MoveStep::Right => facing.right(60),
                    MoveStep::Forward => facing,
                };
            }
            assert_eq!(facing, to);
        }
    }
    assert_eq!(find_spin(Dir::Orient60, Dir::Orient60).len(), 0);
    // a half turn goes to the right, whichever way the difference falls
    assert_eq!(
        find_spin(Dir::Orient180, Dir::Orient0),
        [MoveStep::Right, MoveStep::Right, MoveStep::Right]
    );
    assert_eq!(
        find_spin(Dir::Orient240, Dir::Orient60),
        [MoveStep::Right, MoveStep::Right, MoveStep::Right]
    );
    assert_eq!(
        find_spin(Dir::Orient0, Dir::Orient180),
        [MoveStep::Right, MoveStep::Right, MoveStep::Right]
    );
    assert_eq!(
        find_spin(Dir::Orient300, Dir::Orient120),
        [MoveStep::Right, MoveStep::Right, MoveStep::Right]
    );
}

#[test]
fn flood_map_records_how_cells_were_reached() {
    let cells = map_of(&flower());
    let came_from = flood_map(&at(0, 0), &Dir::Orient0, &at(5, 5), &cells);
    assert_eq!(came_from.len(), 4);
    assert_eq!(
        came_from.get(&at(0, 0)),
        Some(&FromStep { coords: at(0, 0), dir: Dir::Orient0 })
    );
    assert_eq!(
        came_from.get(&at(0, 1)),
        Some(&FromStep { coords: at(0, 0), dir: Dir::Orient0 })
    );
    assert_eq!(
        came_from.get(&at(1, 0)),
        Some(&FromStep { coords: at(0, 0), dir: Dir::Orient60 })
    );
    assert_eq!(
        came_from.get(&at(1, -1)),
        Some(&FromStep { coords: at(1, 0), dir: Dir::Orient180 })
    );
    assert_eq!(came_from.get(&at(-1, 0)), None);
}

#[test]
fn flood_map_stops_at_the_target() {
    let cells = map_of(&flower());
    let came_from = flood_map(&at(0, 0), &Dir::Orient0, &at(0, 1), &cells);
    assert!(came_from.contains_key(&at(0, 1)));
    assert!(came_from.contains_key(&at(1, 0)));
    assert!(!came_from.contains_key(&at(1, -1)));
    let at_once = flood_map(&at(0, 0), &Dir::Orient0, &at(0, 0), &cells);
    assert_eq!(at_once.len(), 1);
}

#[test]
fn flood_map_from_outside_holds_the_start_only() {
    let cells = map_of(&flower());
    let came_from = flood_map(&at(9, 9), &Dir::Orient0, &at(0, 0), &cells);
    assert_eq!(came_from.len(), 1);
    assert!(came_from.contains_key(&at(9, 9)));
}

#[test]
fn flood_map_favours_the_way_ahead() {
    // two ways of two steps lead from the origin to (1, 0): over (0, 1) and
    // over (1, -1)
    let mut cells = vec![
        GridCell::new(0, &at(0, 0)),
        GridCell::new(1, &at(0, 1)),
        GridCell::new(2, &at(1, -1)),
        GridCell::new(3, &at(1, 0)),
    ];
    open(&mut cells, 0, 0, Dir::Orient0);
    open(&mut cells, 0, 0, Dir::Orient120);
    open(&mut cells, 0, 1, Dir::Orient120);
    open(&mut cells, 1, -1, Dir::Orient0);
    let map = map_of(&cells);
    let up_first = flood_map(&at(0, 0), &Dir::Orient0, &at(1, 0), &map);
    assert_eq!(
        up_first.get(&at(1, 0)),
        Some(&FromStep { coords: at(0, 1), dir: Dir::Orient120 })
    );
    let down_first = flood_map(&at(0, 0), &Dir::Orient120, &at(1, 0), &map);
    assert_eq!(
        down_first.get(&at(1, 0)),
        Some(&FromStep { coords: at(1, -1), dir: Dir::Orient0 })
    );
}

#[test]
fn path_leads_from_start_to_target() {
    let cells = map_of(&flower());
    let came_from = flood_map(&at(0, 0), &Dir::Orient0, &at(1, -1), &cells);
    let path = depth_to_path(&came_from, at(1, -1), at(0, 0)).unwrap();
    assert_eq!(
        path,
        vec![
            FromStep { coords: at(0, 0), dir: Dir::Orient60 },
            FromStep { coords: at(1, 0), dir: Dir::Orient180 }
        ]
    );
    let own = depth_to_path(&came_from, at(0, 0), at(0, 0)).unwrap();
    assert_eq!(own, vec![FromStep { coords: at(0, 0), dir: Dir::Orient0 }]);
}

#[test]
fn path_errors() {
    let cells = map_of(&flower());
    let came_from = flood_map(&at(0, 0), &Dir::Orient0, &at(-1, 0), &cells);
    assert_eq!(
        depth_to_path(&came_from, at(-1, 0), at(0, 0)),
        Err("Error: couldn't find the target coords in the depth map".to_string())
    );

    let mut broken: CoordMap<FromStep> = CoordMap::new();
    broken.insert(at(0, 2), FromStep { coords: at(0, 1), dir: Dir::Orient0 });
    assert_eq!(
        depth_to_path(&broken, at(0, 2), at(0, 0)),
        Err("Error: couldn't get a step when traversing depth map".to_string())
    );

    let mut circle: CoordMap<FromStep> = CoordMap::new();
    circle.insert(at(0, 2), FromStep { coords: at(0, 1), dir: Dir::Orient0 });
    circle.insert(at(0, 1), FromStep { coords: at(0, 2), dir: Dir::Orient180 });
    assert_eq!(
        depth_to_path(&circle, at(0, 2), at(0, 0)),
        Err("Error: couldn't get a step when traversing depth map".to_string())
    );
}

#[test]
fn moves_follow_the_path() {
    let path = vec![
        FromStep { coords: at(0, 0), dir: Dir::Orient60 },
        FromStep { coords: at(1, 0), dir: Dir::Orient120 },
        FromStep { coords: at(2, -1), dir: Dir::Orient120 },
        FromStep { coords: at(3, -2), dir: Dir::Orient300 },
    ];
    let moves = path_to_moves(CoordsAndDir { coords: at(0, 0), dir: Dir::Orient0 }, &path);
    assert_eq!(
        moves,
        Ok(vec![
            MoveStep::Right,
            MoveStep::Forward,
            MoveStep::Right,
            MoveStep::Forward,
            MoveStep::Forward,
            MoveStep::Right,
            MoveStep::Right,
            MoveStep::Right,
            MoveStep::Forward
        ])
    );
    let none = path_to_moves(CoordsAndDir { coords: at(0, 0), dir: Dir::Orient0 }, &Vec::new());
    assert_eq!(none, Ok(Vec::new()));
}

#[test]
fn reachable_within_steps() {
    let cells = map_of(&flower());
    assert!(is_reachable(&at(0, 0), &at(0, 1), &cells, 1));
    assert!(!is_reachable(&at(0, 0), &at(0, 1), &cells, 0));
    assert!(is_reachable(&at(0, 0), &at(1, -1), &cells, 2));
    assert!(!is_reachable(&at(0, 0), &at(1, -1), &cells, 1));
    assert!(is_reachable(&at(0, 0), &at(1, -1), &cells, 40));
    assert!(!is_reachable(&at(0, 0), &at(-1, 0), &cells, 40));
    assert!(!is_reachable(&at(0, 0), &at(0, -1), &cells, 40));
    assert!(is_reachable(&at(1, -1), &at(0, 1), &cells, 2));
    assert!(!is_reachable(&at(1, -1), &at(0, 1), &cells, 1));
}

#[test]
fn a_cell_is_reachable_from_itself() {
    let cells = map_of(&flower());
    assert!(is_reachable(&at(0, 0), &at(0, 0), &cells, 0));
    assert!(is_reachable(&at(7, 7), &at(7, 7), &cells, 3));
    assert!(!is_reachable(&at(0, 0), &at(0, 0), &cells, -1));
}

#[test]
fn a_robot_plans_over_what_it_knows() {
    let cells = flower();
    let grid = Grid::load(cells.clone()).unwrap();
    let mut robot = Robot::new(1, at(0, 0), Dir::Orient0, None);
    assert!(find_path(&robot, &grid, at(1, -1), false).is_err());
    assert_eq!(find_path(&robot, &grid, at(0, 0), false), Ok(Vec::new()));

    knowing(&mut robot, &cells);
    assert_eq!(
        find_path(&robot, &grid, at(1, -1), false),
        Ok(vec![
            MoveStep::Right,
            MoveStep::Forward,
            MoveStep::Right,
            MoveStep::Right,
            MoveStep::Forward
        ])
    );
    assert_eq!(
        find_path(&robot, &grid, at(0, 1), false),
        Ok(vec![MoveStep::Forward])
    );
    assert!(find_path(&robot, &grid, at(-1, 0), false).is_err());
    assert!(find_path(&robot, &grid, at(4, 4), false).is_err());
}

#[test]
fn a_robot_plans_round_the_robots_it_sees() {
    let cells = flower();
    let grid = Grid::load(cells.clone()).unwrap();
    let mut robot = Robot::new(1, at(0, 0), Dir::Orient0, None);
    knowing(&mut robot, &cells);
    robot.visible_others = vec![VisibleRobot {
        robot_id: 2,
        coords: at(1, 0),
        threat_level: ThreatLevel::Weaker,
    }];
    // the ways to (1, -1) lead over (1, 0), which is taken
    assert!(find_path(&robot, &grid, at(1, -1), false).is_err());
    assert!(find_path(&robot, &grid, at(1, -1), true).is_err());
    assert_eq!(
        find_path(&robot, &grid, at(0, 1), false),
        Ok(vec![MoveStep::Forward])
    );
    // to the other robot itself there is a way only when it is the goal
    assert!(find_path(&robot, &grid, at(1, 0), false).is_err());
    assert_eq!(
        find_path(&robot, &grid, at(1, 0), true),
        Ok(vec![MoveStep::Right, MoveStep::Forward])
    );
}

#[test]
fn nearest_and_farthest_goals() {
    let cells = flower();
    let grid = Grid::load(cells.clone()).unwrap();
    let mut robot = Robot::new(1, at(0, 0), Dir::Orient0, None);
    knowing(&mut robot, &cells);
    let all: Vec<Coords> = cells.iter().map(|c| at(c.q, c.r)).collect();

    assert_eq!(
        find_closest_coords(&robot, &grid, vec![at(1, -1), at(0, 1), at(1, 0)], false),
        Some(at(1, -1))
    );
    assert_eq!(
        find_closest_coords(&robot, &grid, vec![at(3, 3), at(-1, 0), at(0, -1)], false),
        Some(at(-1, 0))
    );
    assert_eq!(
        find_closest_coords(&robot, &grid, vec![at(3, 3), at(-1, 0), at(0, 1)], true),
        Some(at(0, 1))
    );
    assert_eq!(
        find_closest_coords(&robot, &grid, vec![at(3, 3), at(-1, 0)], true),
        None
    );
    assert_eq!(find_closest_coords(&robot, &grid, Vec::new(), false), None);

    // three cells in reach lie three steps from (-2, 0); the first is taken
    assert_eq!(
        find_farthest_coords(&robot, &grid, all.clone(), true, Some(&at(-2, 0))),
        Some(at(0, 1))
    );
    assert_eq!(
        find_farthest_coords(&robot, &grid, all.clone(), false, Some(&at(2, 0))),
        Some(at(0, -1))
    );
    assert_eq!(
        find_farthest_coords(&robot, &grid, all.clone(), true, Some(&at(0, 3))),
        Some(at(1, -1))
    );
    assert_eq!(
        find_farthest_coords(&robot, &grid, all.clone(), true, None),
        Some(at(0, 1))
    );
    assert_eq!(
        find_farthest_coords(&robot, &grid, vec![at(-1, 1)], true, None),
        None
    );
}
