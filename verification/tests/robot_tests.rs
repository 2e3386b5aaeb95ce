use ares::grid::coords::{Coords, CoordsAndDir, Dir};
use ares::grid::edge::EdgeType;
use ares::grid::grid::{Grid, GridCell};
use ares::grid::utils::traversal::MoveStep;
use ares::robot::process::collect::Collect;
use ares::robot::process::exfil::Exfil;
use ares::robot::process::explode::Explode;
use ares::robot::process::moveproc::Move;
use ares::robot::process::neutral::Neutral;
use ares::robot::process::pursue::Pursue;
use ares::robot::process::scan::{Scan, ThreatLevel, VisibleRobot, VisibleValuable};
use ares::robot::process::{ProcessResult, Processes};
use ares::robot::robot::{Robot, RobotKnownCell, RobotModules};
use ares::server::{Request, Response};

fn at(q: i32, r: i32) -> Coords {
    Coords { q, r }
}

/// Cells in a row upwards from the origin, open from one to the next.
fn corridor(n: i32) -> Vec<GridCell> {
    let mut cells: Vec<GridCell> = (0..n).map(|i| GridCell::new(i, &at(0, i))).collect();
    for i in 0..(n - 1) as usize {
        cells[i].change_side(&Dir::Orient0, EdgeType::Open);
        cells[i + 1].change_side(&Dir::Orient180, EdgeType::Open);
    }
    cells
}

fn with_modules(id: i64, q: i32, r: i32, modules: &[(&str, &str)]) -> Robot {
    Robot::new(
        id,
        at(q, r),
        Dir::Orient0,
        Some(
            modules
                .iter()
                .map(|(k, v)| (k.to_string(), v.to_string()))
                .collect(),
        ),
    )
}

fn known(robot_id: i64, id: i32, time: u64) -> RobotKnownCell {
    RobotKnownCell { robot_id, gridcell_id: id, discovery_time: time, q: 0, r: id }
}

#[test]
fn modules_are_basic_unless_chosen() {
    let plain = RobotModules::new(4, None);
    assert_eq!(plain.robot_id, 4);
    for name in [
        &plain.m_collector,
        &plain.m_drivesystem,
        &plain.m_exfilbeacon,
        &plain.m_hull,
        &plain.m_memory,
        &plain.m_power,
        &plain.m_scanner,
        &plain.m_weapons,
    ] {
        assert_eq!(name, "basic");
    }
    let chosen = RobotModules::new(
        5,
        Some(vec![
            ("m_scanner".to_string(), "omni_ultra".to_string()),
            ("m_weapon".to_string(), "blaster".to_string()),
            ("m_weapons".to_string(), "supreme_blaster".to_string()),
            ("m_power".to_string(), "plus".to_string()),
            ("m_power".to_string(), "foxline".to_string()),
            ("m_memory".to_string(), "jindai".to_string()),
            ("m_collector".to_string(), "ultratech".to_string()),
            ("m_hull".to_string(), "thick".to_string()),
            ("m_drivesystem".to_string(), "fast".to_string()),
            ("m_exfilbeacon".to_string(), "loud".to_string()),
        ]),
    );
    assert_eq!(chosen.m_scanner, "omni_ultra");
    assert_eq!(chosen.m_weapons, "blaster");
    assert_eq!(chosen.m_power, "foxline");
    assert_eq!(chosen.m_memory, "jindai");
    assert_eq!(chosen.m_collector, "ultratech");
    assert_eq!(chosen.m_hull, "thick");
    assert_eq!(chosen.m_drivesystem, "fast");
    assert_eq!(chosen.m_exfilbeacon, "loud");
}

#[test]
fn a_new_robot_is_full_and_idle() {
    let robot = with_modules(3, 2, -1, &[("m_power", "plus"), ("m_collector", "foxterra")]);
    assert_eq!(robot.data.id, 3);
    assert_eq!(robot.data.name.len(), 8);
    assert_eq!(robot.get_coords(), at(2, -1));
    assert_eq!(
        robot.get_coords_and_orientation(),
        CoordsAndDir { coords: at(2, -1), dir: Dir::Orient0 }
    );
    assert_eq!(robot.data.power, 1500);
    assert_eq!(robot.data.max_power, 1500);
    assert_eq!(robot.data.recharge_rate, 300);
    assert_eq!(robot.data.hull_strength, 1000);
    assert_eq!(robot.data.max_hull_strength, 1000);
    assert_eq!(robot.data.max_val_inventory, 500);
    assert_eq!(robot.data.val_inventory, 0);
    assert_eq!(robot.data.exfil_countdown, -1);
    assert_eq!(robot.data.status_text, "I'm ready to work!");
    assert_eq!(robot.active_process, None);
    assert_eq!(robot.movement_queue, None);
    assert!(!robot.is_under_attack());
    assert!(!robot.is_pursuing());
    assert!(robot.is_well_formed());
    let copy = robot.snapshot();
    assert_eq!(copy.data.name, robot.data.name);
    assert_eq!(copy.modules.m_power, "plus");
}

#[test]
fn power_is_used_and_recharged() {
    let mut robot = with_modules(1, 0, 0, &[]);
    assert_eq!(robot.use_power(400), ProcessResult::Okay);
    assert_eq!(robot.data.power, 600);
    assert_eq!(robot.use_power(601), ProcessResult::Fail);
    assert_eq!(robot.data.power, 600);
    assert_eq!(robot.use_power(600), ProcessResult::Okay);
    assert_eq!(robot.data.power, 0);
    robot.recharge_power();
    assert_eq!(robot.data.power, 150);
    for _ in 0..6 {
        robot.recharge_power();
        assert!(robot.data.power <= robot.data.max_power);
    }
    assert_eq!(robot.data.power, 1000);
    assert!(robot.is_well_formed());
}

#[test]
fn hull_takes_damage_and_repair() {
    let mut robot = with_modules(1, 0, 0, &[]);
    robot.update_hull_strength(-250);
    assert_eq!(robot.data.hull_strength, 750);
    robot.update_hull_strength(-1000);
    assert_eq!(robot.data.hull_strength, -250);
    robot.update_hull_strength(2000);
    assert_eq!(robot.data.hull_strength, 1750);
}

#[test]
fn status_keeps_the_five_newest_lines() {
    let mut robot = with_modules(1, 0, 0, &[]);
    robot.set_status_text("one");
    assert_eq!(robot.data.status_text, "one\nI'm ready to work!");
    robot.set_status_text("two");
    robot.set_status_text("three");
    robot.set_status_text("four");
    assert_eq!(robot.data.status_text, "four\nthree\ntwo\none\nI'm ready to work!");
    robot.set_status_text("five");
    assert_eq!(robot.data.status_text, "five\nfour\nthree\ntwo\none");
    robot.set_status_text("");
    assert_eq!(robot.data.status_text, "\nfive\nfour\nthree\ntwo");
    robot.data.status_text = String::new();
    robot.set_status_text("alone");
    assert_eq!(robot.data.status_text, "alone\n");
}

#[test]
fn turning_and_stepping() {
    let mut robot = with_modules(1, 0, 0, &[]);
    robot.turn_left();
    assert_eq!(robot.data.orientation, Dir::Orient300);
    robot.turn_right();
    robot.turn_right();
    assert_eq!(robot.data.orientation, Dir::Orient60);
    assert_eq!(robot.move_forward(), at(1, 0));
    assert_eq!(robot.get_coords(), at(1, 0));
}

#[test]
fn moves_come_off_the_queue_in_order() {
    let mut robot = with_modules(1, 0, 0, &[]);
    assert_eq!(robot.get_move(), None);
    robot.movement_queue = Some(vec![MoveStep::Left, MoveStep::Forward]);
    assert_eq!(robot.get_move(), Some(MoveStep::Left));
    assert_eq!(robot.movement_queue, Some(vec![MoveStep::Forward]));
    assert_eq!(robot.get_move(), Some(MoveStep::Forward));
    assert_eq!(robot.movement_queue, Some(Vec::new()));
    assert_eq!(robot.get_move(), None);
    assert_eq!(robot.movement_queue, None);
    robot.movement_queue = Some(vec![MoveStep::Right]);
    robot.empty_movement_queue();
    assert_eq!(robot.movement_queue, None);
}

#[test]
fn attacks_are_noted_and_cleared() {
    let mut robot = with_modules(1, 0, 0, &[]);
    robot.record_attack(9, 120);
    assert!(robot.is_under_attack());
    assert_eq!(robot.get_attack_dir(), Dir::Orient120);
    robot.record_attack(9, -60);
    assert_eq!(robot.get_attack_dir(), Dir::Orient300);
    robot.record_attack(9, 45);
    assert_eq!(robot.get_attack_dir(), Dir::Orient0);
    robot.clear_attacker_info();
    assert!(!robot.is_under_attack());
    assert_eq!((robot.data.attacked_by, robot.data.attacked_from), (-1, -1));
    robot.successfully_attacked(4, 120);
    assert_eq!((robot.data.attacked, robot.data.damage_done), (4, 120));
    assert!(robot.data.status_text.starts_with("Attacked Robot 4 for 120\n"));
    robot.clear_attack_info();
    assert_eq!((robot.data.attacked, robot.data.damage_done), (-1, -1));
}

#[test]
fn memory_holds_no_more_than_its_size() {
    let mut robot = with_modules(1, 0, 0, &[]);
    let first: Vec<RobotKnownCell> = (0..15).map(|i| known(1, i, i as u64)).collect();
    robot.update_known_cells(first);
    assert_eq!(robot.known_cells.len(), 15);
    let second: Vec<RobotKnownCell> = (10..30).map(|i| known(1, i, 100 + i as u64)).collect();
    robot.update_known_cells(second);
    assert_eq!(robot.known_cells.len(), 20);
    // the ten cells seen again were refreshed; the five oldest made room
    let ids: Vec<i32> = robot.known_cells.iter().map(|c| c.gridcell_id).collect();
    assert_eq!(ids, (10..30).collect::<Vec<i32>>());
    assert!(robot.known_cells.iter().all(|c| c.discovery_time >= 100));

    let mut roomy = with_modules(2, 0, 0, &[("m_memory", "jindai")]);
    roomy.update_known_cells((0..100).map(|i| known(2, i, (200 - i) as u64)).collect());
    assert_eq!(roomy.known_cells.len(), 80);
    let ids: Vec<i32> = roomy.known_cells.iter().map(|c| c.gridcell_id).collect();
    assert_eq!(ids, (0..80).collect::<Vec<i32>>());
}

#[test]
fn the_oldest_cell_leaves_first() {
    let mut robot = with_modules(1, 0, 0, &[]);
    robot.known_cells = (0..22).map(|i| known(1, i, [5, 3, 9][i as usize % 3])).collect();
    robot.limit_known_cells();
    assert_eq!(robot.known_cells.len(), 20);
    let ids: Vec<i32> = robot.known_cells.iter().map(|c| c.gridcell_id).collect();
    // cells 1 and 4 are the first two of the oldest
    let mut expected: Vec<i32> = (0..22).collect();
    expected.retain(|i| *i != 1 && *i != 4);
    assert_eq!(ids, expected);
}

#[test]
fn what_a_robot_knows_of_the_grid() {
    let grid = Grid::load(corridor(4)).unwrap();
    let mut robot = with_modules(1, 0, 0, &[]);
    robot.known_cells = vec![known(1, 0, 0), known(1, 1, 1), known(1, 2, 2), known(1, 7, 3)];
    assert!(robot.knows_coords(&at(0, 2)));
    assert!(!robot.knows_coords(&at(0, 3)));
    let cells = robot.get_known_cells(&grid);
    assert_eq!(cells.len(), 3);
    assert_eq!(cells.get(&at(0, 1)).unwrap().id, 1);
    assert!(!cells.contains_key(&at(0, 3)));
    assert!(!cells.contains_key(&at(0, 7)));

    robot.visible_others = vec![
        VisibleRobot { robot_id: 2, coords: at(0, 2), threat_level: ThreatLevel::Equal },
        VisibleRobot { robot_id: 1, coords: at(0, 0), threat_level: ThreatLevel::Equal },
    ];
    assert!(robot.known_occupied_coords(&at(0, 2)));
    assert!(!robot.known_occupied_coords(&at(0, 1)));
    let free = robot.get_known_unoccupied_cells(&grid);
    assert_eq!(free.len(), 2);
    assert!(free.contains_key(&at(0, 0)));
    assert!(free.contains_key(&at(0, 1)));
    assert_eq!(robot.known_unoccupied_coords(&grid), vec![at(0, 0), at(0, 1)]);
    let to_other = robot.get_planning_cells(&grid, &at(0, 2), true);
    assert_eq!(to_other.len(), 3);
    let to_cell = robot.get_planning_cells(&grid, &at(0, 2), false);
    assert_eq!(to_cell.len(), 2);
}

#[test]
fn a_robot_moves_where_the_way_is_open() {
    let mut grid = Grid::load(corridor(3)).unwrap();
    let mut robot = with_modules(1, 0, 0, &[]);
    grid.add_robot(&robot);
    assert_eq!(robot.move_robot(&mut grid), ProcessResult::Fail);

    robot.movement_queue = Some(vec![MoveStep::Forward, MoveStep::Left, MoveStep::Forward]);
    assert_eq!(robot.move_robot(&mut grid), ProcessResult::Okay);
    assert_eq!(robot.get_coords(), at(0, 1));
    assert_eq!(grid.get_robot_id_by_loc(&at(0, 1)), Some(&1));
    assert_eq!(grid.get_robot_id_by_loc(&at(0, 0)), None);
    assert_eq!(robot.move_robot(&mut grid), ProcessResult::Okay);
    assert_eq!(robot.data.orientation, Dir::Orient300);
    // a wall is in the way
    assert_eq!(robot.move_robot(&mut grid), ProcessResult::Fail);
    assert_eq!(robot.get_coords(), at(0, 1));
    assert_eq!(robot.movement_queue, Some(Vec::new()));
    assert_eq!(robot.move_robot(&mut grid), ProcessResult::Fail);
    assert_eq!(robot.movement_queue, None);
}

#[test]
fn a_robot_does_not_move_onto_another() {
    let mut grid = Grid::load(corridor(3)).unwrap();
    let mut robot = with_modules(1, 0, 0, &[]);
    let other = with_modules(2, 0, 1, &[]);
    grid.add_robot(&robot);
    grid.add_robot(&other);
    robot.movement_queue = Some(vec![MoveStep::Forward]);
    assert_eq!(robot.move_robot(&mut grid), ProcessResult::Fail);
    assert_eq!(robot.get_coords(), at(0, 0));
    assert_eq!(grid.get_robot_id_by_loc(&at(0, 1)), Some(&2));
    assert_eq!(grid.get_robot_id_by_loc(&at(0, 0)), Some(&1));
}

#[test]
fn threat_of_another_robot() {
    assert_eq!(Scan::assess(None, 100, 0, 100), ThreatLevel::Unknown);
    assert_eq!(Scan::assess(Some(250), 100, 50, 100), ThreatLevel::Stronger);
    assert_eq!(Scan::assess(Some(50), 100, 50, 100), ThreatLevel::Weaker);
    assert_eq!(Scan::assess(Some(100), 100, 100, 100), ThreatLevel::Equal);
    assert_eq!(Scan::assess(Some(250), 100, 76, 75), ThreatLevel::Unknown);
    assert_eq!(Scan::assess(Some(250), 100, 75, 75), ThreatLevel::Stronger);
    assert_eq!(Scan::assess(Some(250), 100, 1, 0), ThreatLevel::Unknown);
    assert_eq!(Scan::assess(Some(0), 0, 0, 0), ThreatLevel::Equal);
}

#[test]
fn a_scan_sees_along_open_ways() {
    let mut grid = Grid::load(corridor(6)).unwrap();
    let mut robot = with_modules(1, 0, 1, &[("m_scanner", "omni_basic")]);
    let other = with_modules(2, 0, 3, &[("m_weapon", "blaster")]);
    grid.add_robot(&robot);
    grid.add_robot(&other);
    grid.add_valuable(at(0, 2), 40);
    grid.add_valuable(at(0, 5), 41);

    let result = Scan::run(&mut robot, &grid);
    let results = match result {
        ProcessResult::ScannedCells(results) => results,
        other => panic!("no scan: {:?}", other),
    };
    assert_eq!(results.scanned_cells, vec![at(0, 0), at(0, 2), at(0, 3), at(0, 1)]);
    assert_eq!(
        results.visible_valuables,
        vec![VisibleValuable { valuable_id: 40, coords: at(0, 2) }]
    );
    assert_eq!(results.visible_robots.len(), 1);
    assert_eq!(results.visible_robots[0].robot_id, 2);
    assert_eq!(results.visible_robots[0].coords, at(0, 3));
    // an omni scanner tells nothing of the other's weapon
    assert_eq!(results.visible_robots[0].threat_level, ThreatLevel::Unknown);
    assert_eq!(robot.visible_others, results.visible_robots);
    assert_eq!(robot.visible_valuables, results.visible_valuables);
    assert_eq!(robot.data.power, 500);
    let ids: Vec<i32> = robot.known_cells.iter().map(|c| c.gridcell_id).collect();
    assert_eq!(ids, vec![0, 2, 3, 1]);
    let times: Vec<u64> = robot.known_cells.iter().map(|c| c.discovery_time).collect();
    assert_eq!(times, vec![0, 1, 2, 3]);
    assert_eq!(robot.clock, 4);

    assert_eq!(Scan::run(&mut robot, &grid), ProcessResult::ScannedCells(results));
    assert_eq!(robot.data.power, 0);
    assert_eq!(robot.clock, 8);
    assert_eq!(Scan::run(&mut robot, &grid), ProcessResult::OutOfPower);
    assert_eq!(Scan::init(&mut robot), ProcessResult::Okay);
}

#[test]
fn a_scan_rates_what_it_can_tell() {
    let mut grid = Grid::load(corridor(3)).unwrap();
    let mut robot = with_modules(1, 0, 0, &[("m_weapon", "blaster")]);
    grid.add_robot(&robot);
    grid.add_robot(&with_modules(2, 0, 1, &[("m_weapon", "supreme_blaster")]));
    match Scan::run(&mut robot, &grid) {
        ProcessResult::ScannedCells(results) => {
            assert_eq!(
                results.visible_robots,
                vec![VisibleRobot {
                    robot_id: 2,
                    coords: at(0, 1),
                    threat_level: ThreatLevel::Stronger
                }]
            );
        }
        other => panic!("no scan: {:?}", other),
    }
    grid.remove_robot_by_id(&2);
    grid.add_robot(&with_modules(3, 0, 1, &[("m_weapon", "none")]));
    match Scan::run(&mut robot, &grid) {
        ProcessResult::ScannedCells(results) => {
            assert_eq!(results.visible_robots[0].threat_level, ThreatLevel::Weaker);
        }
        other => panic!("no scan: {:?}", other),
    }
}

#[test]
fn a_scan_does_not_see_through_walls() {
    let mut cells = corridor(3);
    cells.push(GridCell::new(3, &at(1, 0)));
    let mut grid = Grid::load(cells).unwrap();
    let mut robot = with_modules(1, 0, 0, &[("m_scanner", "omni_basic")]);
    grid.add_robot(&robot);
    grid.add_valuable(at(1, 0), 5);
    match Scan::run(&mut robot, &grid) {
        ProcessResult::ScannedCells(results) => {
            assert_eq!(results.scanned_cells, vec![at(0, 1), at(0, 2), at(0, 0)]);
            assert_eq!(results.visible_valuables.len(), 0);
        }
        other => panic!("no scan: {:?}", other),
    }
}

#[test]
fn collecting_asks_for_what_fits() {
    let mut grid = Grid::load(corridor(2)).unwrap();
    let mut robot = with_modules(1, 0, 0, &[("m_collector", "foxterra")]);
    assert_eq!(Collect::run(&mut robot, &grid), ProcessResult::TransitionToNeutral);
    grid.add_valuable(at(0, 0), 8);
    assert_eq!(
        Collect::run(&mut robot, &grid),
        ProcessResult::ServerRequest(Request::Mine { valuable_id: 8, amount: 25 })
    );
    robot.data.val_inventory = 490;
    assert_eq!(
        Collect::run(&mut robot, &grid),
        ProcessResult::ServerRequest(Request::Mine { valuable_id: 8, amount: 10 })
    );
    robot.data.val_inventory = 500;
    assert_eq!(Collect::run(&mut robot, &grid), ProcessResult::TransitionToNeutral);
    robot.data.val_inventory = 300;
    robot.data.mined_amount = 250;
    assert_eq!(Collect::run(&mut robot, &grid), ProcessResult::TransitionToNeutral);
    robot.data.mined_amount = 249;
    assert_eq!(
        Collect::run(&mut robot, &grid),
        ProcessResult::ServerRequest(Request::Mine { valuable_id: 8, amount: 25 })
    );
    assert_eq!(Collect::init(&mut robot), ProcessResult::Okay);
    assert_eq!(robot.data.mined_amount, 0);
}

#[test]
fn exfiltration_counts_down() {
    let mut robot = with_modules(6, 0, 0, &[]);
    assert_eq!(Exfil::init(&mut robot), ProcessResult::Okay);
    assert_eq!(robot.data.exfil_countdown, 10);
    assert!(robot.data.status_text.starts_with("I'm calling for exfiltration.\n"));
    for left in (1..10).rev() {
        assert_eq!(Exfil::run(&mut robot), ProcessResult::Okay);
        assert_eq!(robot.data.exfil_countdown, left);
    }
    assert!(robot.data.status_text.starts_with("I'm calling for exfiltration in ... 1\n"));
    assert_eq!(
        Exfil::run(&mut robot),
        ProcessResult::ServerRequest(Request::Exfiltrate { robot_id: 6 })
    );
    assert_eq!(robot.data.exfil_countdown, 0);
    robot.reset_exfil_countdown();
    assert_eq!(robot.data.exfil_countdown, -1);
    robot.data.exfil_countdown = i32::MIN;
    assert_eq!(Exfil::run(&mut robot), ProcessResult::Okay);
    assert_eq!(robot.data.exfil_countdown, i32::MIN);
}

#[test]
fn an_exploding_robot_drops_load_and_power() {
    let mut robot = with_modules(1, 0, 0, &[("m_power", "foxline")]);
    robot.data.val_inventory = 120;
    robot.data.power = 10;
    assert_eq!(Explode::init(&mut robot), ProcessResult::Okay);
    assert_eq!(
        Explode::run(&mut robot),
        ProcessResult::ServerRequest(Request::Explode { valuables: 3120 })
    );
    assert!(robot.data.status_text.starts_with("I'm dead!\n"));
}

#[test]
fn a_move_starts_with_a_plan() {
    let grid = Grid::load(corridor(4)).unwrap();
    let mut robot = with_modules(1, 0, 0, &[]);
    robot.known_cells = (0..3).map(|i| known(1, i, i as u64)).collect();
    assert_eq!(Move::init(&mut robot, &grid, None), ProcessResult::Fail);
    assert_eq!(
        Move::init(&mut robot, &grid, Some(ProcessResult::TransitionToNeutral)),
        ProcessResult::Fail
    );
    assert_eq!(robot.data.status_text, "I'm ready to work!");

    let to = ProcessResult::TransitionToMove(at(0, 2), Dir::Orient60, false);
    assert_eq!(Move::init(&mut robot, &grid, Some(to)), ProcessResult::Okay);
    assert_eq!(
        robot.movement_queue,
        Some(vec![MoveStep::Forward, MoveStep::Forward])
    );
    assert!(robot.data.status_text.starts_with("I'm moving to 0,2.\n"));

    let unknown = ProcessResult::TransitionToFlee(at(0, 3), Dir::Orient60);
    assert_eq!(Move::init(&mut robot, &grid, Some(unknown)), ProcessResult::Fail);
    assert_eq!(robot.movement_queue, None);
    assert!(robot.data.status_text.starts_with("I'm fleeing to 0,3!\n"));

    let here = ProcessResult::TransitionToMove(at(0, 0), Dir::Orient240, true);
    assert_eq!(Move::init(&mut robot, &grid, Some(here)), ProcessResult::Okay);
    assert_eq!(
        robot.movement_queue,
        Some(vec![MoveStep::Left, MoveStep::Left])
    );
}

#[test]
fn a_robot_on_the_move() {
    let mut grid = Grid::load(corridor(4)).unwrap();
    let mut robot = with_modules(1, 0, 0, &[]);
    grid.add_robot(&robot);
    robot.movement_queue = Some(vec![MoveStep::Forward, MoveStep::Forward]);
    assert_eq!(Move::run(&mut robot, &mut grid), ProcessResult::Okay);
    assert_eq!(robot.get_coords(), at(0, 1));
    // ten for the move and twenty for the scan
    assert_eq!(robot.data.power, 970);
    // with the last move made the robot is done with moving
    assert_eq!(Move::run(&mut robot, &mut grid), ProcessResult::TransitionToNeutral);
    assert_eq!(robot.get_coords(), at(0, 2));
    assert_eq!(Move::run(&mut robot, &mut grid), ProcessResult::TransitionToNeutral);
    assert_eq!(robot.get_coords(), at(0, 2));
    robot.data.power = 9;
    robot.movement_queue = Some(vec![MoveStep::Forward]);
    assert_eq!(Move::run(&mut robot, &mut grid), ProcessResult::OutOfPower);
    assert_eq!(robot.get_coords(), at(0, 2));
    assert_eq!(robot.data.power, 9);
}

#[test]
fn an_idle_robot_with_a_full_load_calls_for_extraction() {
    let grid = Grid::load(corridor(3)).unwrap();
    let mut robot = with_modules(1, 0, 0, &[]);
    robot.data.val_inventory = 200;
    assert_eq!(Neutral::run(&mut robot, &grid), ProcessResult::TransitionToExfiltrate);
    assert_eq!(robot.data.power, 1000);
    robot.data.val_inventory = 199;
    robot.data.power = 19;
    assert_eq!(Neutral::run(&mut robot, &grid), ProcessResult::OutOfPower);
    assert_eq!(robot.known_cells.len(), 0);
}

#[test]
fn an_idle_robot_goes_for_valuables() {
    let mut grid = Grid::load(corridor(4)).unwrap();
    let mut robot = with_modules(1, 0, 0, &[("m_scanner", "plus")]);
    grid.add_robot(&robot);
    grid.add_valuable(at(0, 2), 3);
    match Neutral::run(&mut robot, &grid) {
        ProcessResult::TransitionToMove(to, _, spin) => {
            assert_eq!(to, at(0, 2));
            assert!(!spin);
        }
        other => panic!("no move: {:?}", other),
    }
    grid.add_valuable(at(0, 0), 4);
    assert_eq!(Neutral::run(&mut robot, &grid), ProcessResult::TransitionToCollect);
}

#[test]
fn an_idle_robot_leaves_guarded_valuables() {
    let mut grid = Grid::load(corridor(3)).unwrap();
    let mut robot = with_modules(1, 0, 0, &[("m_scanner", "plus")]);
    grid.add_robot(&robot);
    grid.add_robot(&with_modules(2, 0, 1, &[]));
    grid.add_valuable(at(0, 1), 3);
    // the other robot is as strong, and the robot has no weapon to pursue it
    match Neutral::run(&mut robot, &grid) {
        ProcessResult::TransitionToMove(to, _, _) => assert_eq!(to, at(0, 0)),
        other => panic!("no move: {:?}", other),
    }
    assert_eq!(
        Neutral::unguarded_valuables(&robot.visible_others, &robot.visible_valuables),
        Vec::new()
    );
}

#[test]
fn an_idle_robot_explores() {
    let grid = Grid::load(corridor(6)).unwrap();
    let mut robot = with_modules(1, 0, 0, &[("m_scanner", "plus")]);
    // the robot sees two cells ahead; the far one has an open side that
    // leads out of what it knows
    match Neutral::run(&mut robot, &grid) {
        ProcessResult::TransitionToMove(to, facing, spin) => {
            assert_eq!(to, at(0, 2));
            assert_eq!(facing, Dir::Orient0);
            assert!(!spin);
        }
        other => panic!("no move: {:?}", other),
    }
    assert_eq!(Neutral::init(&mut robot), ProcessResult::Okay);
    assert!(robot.data.status_text.starts_with("I'm idle.\n"));
    assert_eq!(robot.data.pursuit_id, -1);
}

#[test]
fn exploring_takes_the_nearest_way_out() {
    let grid = Grid::load(corridor(6)).unwrap();
    let mut robot = with_modules(1, 0, 2, &[]);
    robot.known_cells = (1..5).map(|i| known(1, i, i as u64)).collect();
    let order = vec![Dir::Orient180, Dir::Orient0];
    // ways lead out from (0, 1) downwards and from (0, 4) upwards
    assert_eq!(
        Neutral::pick_unexplored(
            &robot,
            &grid,
            &vec![at(0, 4), at(0, 3), at(0, 2), at(0, 1)],
            &order
        ),
        ProcessResult::TransitionToMove(at(0, 1), Dir::Orient180, false)
    );
    robot.data.r = 3;
    assert_eq!(
        Neutral::pick_unexplored(
            &robot,
            &grid,
            &vec![at(0, 1), at(0, 2), at(0, 3), at(0, 4)],
            &order
        ),
        ProcessResult::TransitionToMove(at(0, 4), Dir::Orient0, false)
    );
    // with nothing left to find the first known cell is taken
    let small = Grid::load(corridor(2)).unwrap();
    assert_eq!(
        Neutral::pick_unexplored(&robot, &small, &vec![at(0, 1), at(0, 0)], &order),
        ProcessResult::TransitionToMove(at(0, 1), Dir::Orient180, false)
    );
    assert_eq!(
        Neutral::pick_unexplored(&robot, &small, &vec![at(0, 1)], &Vec::new()),
        ProcessResult::TransitionToMove(at(0, 1), Dir::Orient0, false)
    );
    assert_eq!(
        Neutral::pick_unexplored(&robot, &small, &Vec::new(), &order),
        ProcessResult::Okay
    );
}

#[test]
fn a_robot_flees_from_what_is_stronger() {
    let mut grid = Grid::load(corridor(5)).unwrap();
    let mut robot = with_modules(1, 0, 2, &[("m_scanner", "plus"), ("m_weapon", "blaster")]);
    grid.add_robot(&robot);
    grid.add_robot(&with_modules(2, 0, 3, &[("m_weapon", "supreme_blaster")]));
    robot.known_cells = (0..3).map(|i| known(1, i, i as u64)).collect();
    assert_eq!(
        Neutral::run(&mut robot, &grid),
        ProcessResult::TransitionToFlee(at(0, 0), Dir::Orient0)
    );
    assert!(robot
        .data
        .status_text
        .starts_with("Must flee from Coords { q: 0, r: 3 }\n"));
}

#[test]
fn a_robot_pursues_what_is_weaker() {
    let mut grid = Grid::load(corridor(5)).unwrap();
    let mut robot = with_modules(1, 0, 2, &[("m_scanner", "plus"), ("m_weapon", "blaster")]);
    grid.add_robot(&robot);
    grid.add_robot(&with_modules(2, 0, 4, &[("m_weapon", "none")]));
    assert_eq!(
        Neutral::run(&mut robot, &grid),
        ProcessResult::TransitionToPursue(2)
    );
    assert_eq!(
        Pursue::init(&mut robot, &grid, Some(ProcessResult::TransitionToPursue(2))),
        ProcessResult::Okay
    );
    assert_eq!(robot.data.pursuit_id, 2);
    assert_eq!((robot.data.pursuit_last_q, robot.data.pursuit_last_r), (0, 4));
    assert_eq!(
        robot.movement_queue,
        Some(vec![MoveStep::Forward, MoveStep::Forward])
    );
    assert!(robot.data.status_text.starts_with("I'm pursuing Robot 2.\n"));
    assert!(robot.is_pursuing());

    assert_eq!(Pursue::run(&mut robot, &mut grid, Some(0)), ProcessResult::Okay);
    assert_eq!(robot.get_coords(), at(0, 3));
    // the robot fired from where it stood, two cells from the other
    assert!(!robot.data.status_text.starts_with("I would fire on 2"));
    assert_eq!(Pursue::run(&mut robot, &mut grid, Some(0)), ProcessResult::Okay);
    assert_eq!(robot.get_coords(), at(0, 3));
    assert!(robot.data.status_text.starts_with("I would fire on 2\n"));
    assert_eq!(Pursue::run(&mut robot, &mut grid, None), ProcessResult::Okay);
    assert!(robot.data.status_text.starts_with("I would fire on 2\n"));
    assert!(!robot.data.status_text.starts_with("I would fire on 2\nI would fire"));
}

#[test]
fn a_pursuit_needs_someone_in_view() {
    let grid = Grid::load(corridor(5)).unwrap();
    let mut robot = with_modules(1, 0, 2, &[("m_weapon", "blaster")]);
    assert_eq!(Pursue::init(&mut robot, &grid, None), ProcessResult::Fail);
    assert_eq!(
        Pursue::init(&mut robot, &grid, Some(ProcessResult::TransitionToPursue(2))),
        ProcessResult::Fail
    );
    robot.visible_others =
        vec![VisibleRobot { robot_id: 2, coords: at(0, 4), threat_level: ThreatLevel::Weaker }];
    // the robot sees the other but knows no way to it
    assert_eq!(
        Pursue::init(&mut robot, &grid, Some(ProcessResult::TransitionToPursue(2))),
        ProcessResult::Fail
    );
    assert_eq!(robot.data.pursuit_id, -1);
}

#[test]
fn a_pursuer_that_loses_its_target_goes_where_it_was() {
    let mut grid = Grid::load(corridor(5)).unwrap();
    let mut robot = with_modules(1, 0, 0, &[("m_weapon", "blaster")]);
    grid.add_robot(&robot);
    robot.known_cells = (0..3).map(|i| known(1, i, i as u64)).collect();
    robot.update_pursuit_details(2, &at(0, 2));
    match Pursue::run(&mut robot, &mut grid, None) {
        ProcessResult::TransitionToMove(to, _, spin) => {
            assert_eq!(to, at(0, 2));
            assert!(!spin);
        }
        other => panic!("no move: {:?}", other),
    }
    assert_eq!(robot.get_coords(), at(0, 1));
    robot.update_pursuit_details(2, &at(3, 3));
    assert_eq!(
        Pursue::run(&mut robot, &mut grid, None),
        ProcessResult::TransitionToNeutral
    );
}

#[test]
fn answers_of_the_server() {
    let mut robot = with_modules(1, 0, 3, &[]);
    robot.handle_server_response(Response::AttackFailed);
    assert_eq!(robot.data.status_text, "I'm ready to work!");
    robot.handle_server_response(Response::Mined { valuable_id: 3, amount: 10 });
    robot.handle_server_response(Response::Mined { valuable_id: 3, amount: 7 });
    assert_eq!(robot.data.val_inventory, 17);
    assert_eq!(robot.data.mined_amount, 17);
    robot.start_new_mining_operation();
    assert_eq!(robot.data.mined_amount, 0);
    robot.handle_server_response(Response::AttackSuccess { target_id: 5, damage: 101 });
    assert_eq!((robot.data.attacked, robot.data.damage_done), (5, 101));
    assert!(robot.data.status_text.starts_with("Attacked Robot 5 for 101\n"));
    robot.active_process = Some(Processes::Collect);
    robot.update_pursuit_details(8, &at(1, 1));
    robot.handle_server_response(Response::Fail);
    assert_eq!(robot.active_process, Some(Processes::Neutral));
    assert_eq!(robot.data.pursuit_id, -1);
    assert_eq!((robot.data.pursuit_last_q, robot.data.pursuit_last_r), (0, 3));
    assert!(robot.data.status_text.starts_with("I'm idle.\n"));
}

#[test]
fn a_robot_without_hull_explodes() {
    let mut grid = Grid::load(corridor(3)).unwrap();
    let mut robot = with_modules(1, 0, 0, &[]);
    grid.add_robot(&robot);
    robot.data.val_inventory = 30;
    robot.data.hull_strength = 0;
    robot.active_process = Some(Processes::Collect);
    assert_eq!(
        robot.tick(&mut grid, None),
        Some(Request::Explode { valuables: 1030 })
    );
    assert_eq!(robot.active_process, Some(Processes::Explode));
}

#[test]
fn flee_under_attack() {
    let mut grid = Grid::load(corridor(4)).unwrap();
    let mut robot = with_modules(1, 0, 0, &[("m_scanner", "omni_ultra"), ("m_power", "foxline")]);
    grid.add_robot(&robot);
    robot.active_process = Some(Processes::Neutral);
    robot.known_cells = (0..4).map(|i| known(1, i, i as u64)).collect();
    robot.record_attack(7, 60);

    assert_eq!(robot.tick(&mut grid, None), None);
    assert_eq!(robot.active_process, Some(Processes::Move));
    // the robot makes for the cell farthest from (2, 0), two steps off in
    // the direction of the attack, and has taken the first step
    assert_eq!(robot.get_coords(), at(0, 1));
    assert_eq!(
        robot.movement_queue,
        Some(vec![MoveStep::Forward, MoveStep::Forward])
    );
    assert!(robot
        .data
        .status_text
        .starts_with("I'm fleeing to 0,3!\nRunning away from attacker at Orient60\n"));
    assert!(!robot.is_under_attack());
    assert_eq!((robot.data.attacked_by, robot.data.attacked_from), (-1, -1));
    assert_eq!((robot.data.attacked, robot.data.damage_done), (-1, -1));
}

#[test]
fn a_pursuer_does_not_flee() {
    let mut grid = Grid::load(corridor(4)).unwrap();
    let mut robot = with_modules(1, 0, 0, &[("m_weapon", "blaster")]);
    grid.add_robot(&robot);
    robot.active_process = Some(Processes::Pursue);
    robot.known_cells = (0..4).map(|i| known(1, i, i as u64)).collect();
    robot.update_pursuit_details(2, &at(0, 2));
    robot.record_attack(7, 60);
    assert_eq!(robot.respond_to_attack(&grid), None);
    assert_eq!(robot.tick(&mut grid, None), None);
    assert!(!robot.data.status_text.contains("fleeing"));
    assert!(!robot.is_under_attack());
}

#[test]
fn inventory_full_leads_to_exfiltration() {
    let mut grid = Grid::load(corridor(3)).unwrap();
    let mut robot = with_modules(4, 0, 0, &[]);
    grid.add_robot(&robot);
    robot.data.val_inventory = robot.data.max_val_inventory;
    assert_eq!(robot.tick(&mut grid, None), None);
    assert_eq!(robot.active_process, Some(Processes::Exfil));
    assert_eq!(robot.data.exfil_countdown, 10);
    for _ in 0..9 {
        assert_eq!(robot.tick(&mut grid, None), None);
    }
    assert_eq!(
        robot.tick(&mut grid, None),
        Some(Request::Exfiltrate { robot_id: 4 })
    );
}

#[test]
fn a_robot_on_a_valuable_mines() {
    let mut grid = Grid::load(corridor(3)).unwrap();
    let mut robot = with_modules(1, 0, 1, &[]);
    grid.add_robot(&robot);
    grid.add_valuable(at(0, 1), 77);
    assert_eq!(robot.tick(&mut grid, None), None);
    assert_eq!(robot.active_process, Some(Processes::Collect));
    assert_eq!(
        robot.tick(&mut grid, None),
        Some(Request::Mine { valuable_id: 77, amount: 10 })
    );
    robot.handle_server_response(Response::Mined { valuable_id: 77, amount: 10 });
    assert_eq!(robot.data.val_inventory, 10);
    grid.remove_valuable_by_loc(&at(0, 1));
    assert_eq!(robot.tick(&mut grid, None), None);
    assert_eq!(robot.active_process, Some(Processes::Neutral));
}

#[test]
fn a_tick_recharges() {
    let mut grid = Grid::load(corridor(3)).unwrap();
    let mut robot = with_modules(1, 0, 0, &[]);
    grid.add_robot(&robot);
    robot.data.power = 5;
    assert_eq!(robot.tick(&mut grid, None), None);
    assert_eq!(robot.active_process, Some(Processes::Neutral));
    assert_eq!(robot.data.power, 155);
}

#[test]
fn exploring_takes_the_directions_in_random_order() {
    // a robot that knows its own cell only, from which no side leads out,
    // makes for that cell and faces the first direction of a random order
    let grid = Grid::load(vec![GridCell::new(0, &at(0, 0))]).unwrap();
    let mut robot = with_modules(1, 0, 0, &[]);
    robot.known_cells = vec![known(1, 0, 0)];
    let mut facings = Vec::new();
    for _ in 0..60 {
        match Neutral::goto_random_unexplored_cell(&robot, &grid) {
            ProcessResult::TransitionToMove(to, facing, spin) => {
                assert_eq!(to, at(0, 0));
                assert!(!spin);
                facings.push(facing);
            }
            other => panic!("no move: {:?}", other),
        }
    }
    assert!(facings.iter().any(|f| *f != Dir::Orient0));
    assert!(facings.iter().any(|f| *f != facings[0]));
}

#[test]
fn exploring_takes_the_cells_in_random_order() {
    // two cells are as near to the robot, and from each a side leads out
    let grid = Grid::load(corridor(5)).unwrap();
    let mut robot = with_modules(1, 0, 2, &[]);
    robot.known_cells = vec![known(1, 1, 0), known(1, 2, 1), known(1, 3, 2)];
    let mut goals = Vec::new();
    for _ in 0..60 {
        match Neutral::goto_random_unexplored_cell(&robot, &grid) {
            ProcessResult::TransitionToMove(to, facing, _) => {
                assert!(
                    (to == at(0, 1) && facing == Dir::Orient180)
                        || (to == at(0, 3) && facing == Dir::Orient0)
                );
                goals.push(to);
            }
            other => panic!("no move: {:?}", other),
        }
    }
    assert!(goals.iter().any(|c| *c != goals[0]));
}
