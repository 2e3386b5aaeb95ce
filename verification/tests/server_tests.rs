use ares::grid::coords::{Coords, Dir};
use ares::grid::edge::EdgeType;
use ares::grid::grid::{Grid, GridCell};
use ares::robot::process::Processes;
use ares::robot::robot::Robot;
use ares::server::broadcast::BroadcastMessage;
use ares::server::server::Server;
use ares::server::{Request, Response, ServerConfig};
use ares::valuable::{Valuable, MAX_AMOUNT};

fn at(q: i32, r: i32) -> Coords {
    Coords { q, r }
}

fn corridor(n: i32) -> Vec<GridCell> {
    let mut cells: Vec<GridCell> = (0..n).map(|i| GridCell::new(i, &at(0, i))).collect();
    for i in 0..(n - 1) as usize {
        cells[i].change_side(&Dir::Orient0, EdgeType::Open);
        cells[i + 1].change_side(&Dir::Orient180, EdgeType::Open);
    }
    cells
}

fn config(max_bots: usize, max_valuables: usize) -> ServerConfig {
    ServerConfig { max_bots, max_valuables, no_kill_drops: false, debug: false }
}

fn server(cells: i32, max_bots: usize, max_valuables: usize) -> Server {
    Server::new(config(max_bots, max_valuables), Grid::load(corridor(cells)).unwrap())
}

fn robot(id: i64, q: i32, r: i32, weapon: &str) -> Robot {
    Robot::new(
        id,
        at(q, r),
        Dir::Orient0,
        Some(vec![("m_weapon".to_string(), weapon.to_string())]),
    )
}

fn depleted(messages: &Vec<BroadcastMessage>) -> Vec<i64> {
    messages
        .iter()
        .filter_map(|m| match m {
            BroadcastMessage::ValuableDepleted { valuable_id } => Some(*valuable_id),
            _ => None,
        })
        .collect()
}

#[test]
fn valuable_amounts() {
    let mut pile = Valuable::new(1, at(2, 3), 4000);
    assert_eq!((pile.id, pile.q, pile.r, pile.amount), (1, 2, 3, 4000));
    assert_eq!(pile.kind, "basic");
    pile.add_to_amount(500);
    assert_eq!(pile.amount, 4500);
    pile.add_to_amount(501);
    assert_eq!(pile.amount, MAX_AMOUNT);
    pile.add_to_amount(i32::MAX);
    assert_eq!(pile.amount, 5000);
    assert_eq!(pile.mine(0), 0);
    assert_eq!(pile.mine(1200), 1200);
    assert_eq!(pile.amount, 3800);
    assert_eq!(pile.mine(3800), 3800);
    assert_eq!(pile.amount, 0);
    assert_eq!(pile.mine(5), 0);
    assert_eq!(pile.amount, 0);
    let copy = pile.snapshot();
    assert_eq!((copy.id, copy.amount), (1, 0));
}

#[test]
fn mining_more_than_there_is_depletes_the_pile() {
    let mut pile = Valuable::new(1, at(0, 0), 30);
    assert_eq!(pile.mine(100), 30);
    assert_eq!(pile.amount, 0);
}

#[test]
fn mine_cap() {
    let mut server = server(3, 0, 0);
    server.spawn_valuable(&at(0, 1), 30);
    assert!(server.take_in_robot(robot(1, 0, 1, "none")));
    let id = server.valuables[0].id;
    let response =
        server.handle_request_for_robot(&1, Request::Mine { valuable_id: id, amount: 100 }, None);
    assert_eq!(response, Some(Response::Mined { valuable_id: id, amount: 30 }));
    assert_eq!(server.valuables[0].amount, 0);
    assert_eq!(depleted(&server.take_messages()), Vec::<i64>::new());

    server.finish_tick();
    assert_eq!(server.valuables.len(), 0);
    assert_eq!(server.grid.get_valuable_id_by_loc(&at(0, 1)), None);
    assert_eq!(depleted(&server.take_messages()), vec![id]);
    server.finish_tick();
    assert_eq!(depleted(&server.take_messages()), Vec::<i64>::new());
}

#[test]
fn mining_what_is_not_there_fails() {
    let mut server = server(3, 0, 0);
    server.spawn_valuable(&at(0, 1), 30);
    assert_eq!(server.mine_for_robot(&1, 99, 10), Some(Response::Fail));
    assert_eq!(server.mine_for_robot(&1, 1, -10), Some(Response::Fail));
    assert_eq!(server.valuables[0].amount, 30);
    assert_eq!(
        server.mine_for_robot(&1, 1, 10),
        Some(Response::Mined { valuable_id: 1, amount: 10 })
    );
    assert_eq!(server.valuables[0].amount, 20);
}

#[test]
fn valuables_come_and_grow() {
    let mut server = server(3, 0, 0);
    server.spawn_valuable(&at(0, 1), 30);
    server.spawn_valuable(&at(0, 2), 4000);
    server.spawn_valuable(&at(0, 2), 1500);
    assert_eq!(server.valuables.len(), 2);
    assert_eq!((server.valuables[0].id, server.valuables[0].amount), (1, 30));
    assert_eq!((server.valuables[1].id, server.valuables[1].amount), (2, 5000));
    assert_eq!(server.grid.get_valuable_id_by_loc(&at(0, 2)), Some(&2));
    assert_eq!(server.next_valuable_id, 3);
    let messages = server.take_messages();
    assert_eq!(messages.len(), 3);
    assert!(matches!(&messages[0], BroadcastMessage::ValuableCreated { valuable } if valuable.id == 1));
    assert!(matches!(&messages[1], BroadcastMessage::ValuableCreated { valuable } if valuable.amount == 4000));
    assert!(matches!(&messages[2], BroadcastMessage::ValuableUpdated { valuable } if valuable.amount == 5000));
    assert_eq!(server.valuable_index(2), Some(1));
    assert_eq!(server.valuable_index(3), None);
}

#[test]
fn only_empty_piles_leave() {
    let mut server = server(4, 0, 0);
    server.spawn_valuable(&at(0, 0), 0);
    server.spawn_valuable(&at(0, 1), 5);
    server.spawn_valuable(&at(0, 2), 0);
    server.spawn_valuable(&at(0, 3), 7);
    server.take_messages();
    server.destroy_depleted_valuables();
    let ids: Vec<i64> = server.valuables.iter().map(|v| v.id).collect();
    assert_eq!(ids, vec![2, 4]);
    assert_eq!(server.grid.valuables_locs.len(), 2);
    assert_eq!(depleted(&server.take_messages()), vec![1, 3]);
}

#[test]
fn robots_are_spawned_on_free_cells() {
    let mut server = server(3, 2, 0);
    assert!(server.spawn_robot());
    assert!(server.spawn_robot());
    assert!(server.spawn_robot());
    assert!(!server.spawn_robot());
    assert_eq!(server.robots.len(), 3);
    let ids: Vec<i64> = server.robots.iter().map(|r| r.data.id).collect();
    assert_eq!(ids, vec![1, 2, 3]);
    let mut places: Vec<i32> = server.robots.iter().map(|r| r.data.r).collect();
    places.sort();
    assert_eq!(places, vec![0, 1, 2]);
    for r in server.robots.iter() {
        assert_eq!(server.grid.get_robot_id_by_loc(&r.get_coords()), Some(&r.data.id));
        assert!(server.grid.robot_strengths.contains_key(&r.data.id));
        assert!(r.is_well_formed());
        assert!(!(r.modules.m_collector == "ultratech" && r.modules.m_power == "basic"));
        assert_eq!(
            r.modules.m_memory,
            Server::memory_for_scanner(r.modules.m_scanner.as_str())
        );
    }
    let messages = server.take_messages();
    assert_eq!(messages.len(), 3);
    assert!(matches!(&messages[2], BroadcastMessage::RobotSpawned { robot } if robot.data.id == 3));
    assert_eq!(server.robot_index(2), Some(1));
    assert_eq!(server.robot_index(9), None);
}

#[test]
fn modules_are_fitted_to_one_another() {
    assert_eq!(Server::memory_for_scanner("basic"), "basic");
    assert_eq!(Server::memory_for_scanner("plus"), "basic");
    assert_eq!(Server::memory_for_scanner("triscan"), "basic");
    assert_eq!(Server::memory_for_scanner("triscan_advanced"), "plus");
    assert_eq!(Server::memory_for_scanner("triscan_ultra"), "plus");
    assert_eq!(Server::memory_for_scanner("boxium_started"), "plus");
    assert_eq!(Server::memory_for_scanner("boxium_starter"), "basic");
    assert_eq!(Server::memory_for_scanner("boxium_advanced"), "ikito");
    assert_eq!(Server::memory_for_scanner("boxium_ultra"), "jindai");
    assert_eq!(Server::memory_for_scanner("omni_basic"), "jindai");
    assert_eq!(Server::memory_for_scanner("omni_ultra"), "jindai");
    assert_eq!(Server::power_for_collector("ultratech", "basic".to_string()), "plus");
    assert_eq!(Server::power_for_collector("ultratech", "foxline".to_string()), "foxline");
    assert_eq!(Server::power_for_collector("basic", "basic".to_string()), "basic");
    let modules = Server::random_modules();
    let keys: Vec<&str> = modules.iter().map(|(k, _)| k.as_str()).collect();
    assert_eq!(keys, vec!["m_scanner", "m_memory", "m_collector", "m_power", "m_weapon"]);
}

#[test]
fn a_tick_fills_the_world() {
    let mut server = server(6, 2, 3);
    let ids = server.start_tick();
    assert_eq!(ids, vec![1, 2]);
    assert_eq!(server.robots.len(), 2);
    assert_eq!(server.valuables.len(), 3);
    for v in server.valuables.iter() {
        assert!(50 <= v.amount && v.amount < 5000);
        assert_eq!(server.grid.get_valuable_id_by_loc(&at(v.q, v.r)), Some(&v.id));
        assert_eq!(server.grid.get_robot_id_by_loc(&at(v.q, v.r)), None);
    }
    let again = server.start_tick();
    assert_eq!(again, vec![1, 2]);
    assert_eq!(server.valuables.len(), 3);

    let mut crowded = self::server(3, 9, 9);
    let ids = crowded.start_tick();
    assert_eq!(ids, vec![1, 2, 3]);
    assert_eq!(crowded.valuables.len(), 0);
}

#[test]
fn robots_take_their_ticks() {
    let mut server = server(6, 3, 2);
    for _ in 0..30 {
        let ids = server.start_tick();
        for id in ids {
            server.tick_robot(&id, None);
        }
        server.finish_tick();
        for r in server.robots.iter() {
            assert!(r.is_well_formed());
            assert!(0 <= r.data.power && r.data.power <= r.data.max_power);
            assert!(r.data.val_inventory <= r.data.max_val_inventory);
            assert_eq!(server.grid.get_robot_id_by_loc(&r.get_coords()), Some(&r.data.id));
        }
        for v in server.valuables.iter() {
            assert!(0 < v.amount && v.amount <= MAX_AMOUNT);
        }
        assert_eq!(server.grid.robot_locs.len(), server.robots.len());
        assert_eq!(server.grid.robot_strengths.len(), server.robots.len());
    }
    let messages = server.take_messages();
    assert!(messages.iter().any(|m| matches!(m, BroadcastMessage::RobotMoved { .. })));
}

#[test]
fn a_robot_with_a_full_load_leaves_the_world() {
    let mut server = server(3, 0, 0);
    let mut full = robot(1, 0, 0, "none");
    full.data.val_inventory = full.data.max_val_inventory;
    assert!(server.take_in_robot(full));
    for _ in 0..10 {
        server.tick_robot(&1, None);
        assert_eq!(server.robots.len(), 1);
    }
    assert_eq!(server.robots[0].active_process, Some(Processes::Exfil));
    server.tick_robot(&1, None);
    assert_eq!(server.robots.len(), 0);
    assert_eq!(server.grid.get_robot_id_by_loc(&at(0, 0)), None);
    assert_eq!(server.grid.get_coords_by_robot_id(&1), None);
    assert_eq!(server.grid.robot_strengths.len(), 0);
    let messages = server.take_messages();
    assert!(matches!(messages.last(), Some(BroadcastMessage::RobotExfiltrated { robot_id: 1 })));
}

#[test]
fn an_exploded_robot_leaves_a_valuable() {
    let mut server = server(3, 0, 0);
    let mut doomed = robot(1, 0, 2, "none");
    doomed.data.val_inventory = 20;
    doomed.data.hull_strength = -5;
    assert!(server.take_in_robot(doomed));
    server.tick_robot(&1, None);
    assert_eq!(server.robots.len(), 0);
    assert_eq!(server.grid.get_robot_id_by_loc(&at(0, 2)), None);
    assert_eq!(server.valuables.len(), 1);
    assert_eq!(server.valuables[0].amount, 1020);
    assert_eq!((server.valuables[0].q, server.valuables[0].r), (0, 2));
    let messages = server.take_messages();
    assert_eq!(messages.len(), 2);
    assert!(matches!(messages[0], BroadcastMessage::RobotDestroyed { robot_id: 1 }));
    assert!(matches!(&messages[1], BroadcastMessage::ValuableCreated { valuable } if valuable.amount == 1020));
}

#[test]
fn no_drops_where_the_engine_is_set_so() {
    let mut server = Server::new(
        ServerConfig { max_bots: 0, max_valuables: 0, no_kill_drops: true, debug: false },
        Grid::load(corridor(3)).unwrap(),
    );
    assert!(server.take_in_robot(robot(1, 0, 2, "none")));
    assert_eq!(server.handle_robot_explosion(&1, 500), None);
    assert_eq!(server.robots.len(), 0);
    assert_eq!(server.valuables.len(), 0);
    assert_eq!(server.handle_robot_explosion(&1, 500), None);
    assert_eq!(server.take_messages().len(), 1);
}

#[test]
fn an_attack_hits_the_target() {
    let mut server = server(3, 0, 0);
    assert!(server.take_in_robot(robot(1, 0, 0, "blaster")));
    assert!(server.take_in_robot(robot(2, 0, 1, "none")));
    assert_eq!(
        server.apply_attack(&1, &2, 130, -60),
        Some(Response::AttackSuccess { target_id: 2, damage: 130 })
    );
    assert_eq!(server.robots[1].data.hull_strength, 870);
    assert_eq!(server.robots[1].data.attacked_by, 1);
    assert_eq!(server.robots[1].data.attacked_from, -60);
    assert_eq!(server.robots[0].data.hull_strength, 1000);
    assert_eq!(server.apply_attack(&7, &2, 130, 0), None);
    assert_eq!(server.apply_attack(&1, &7, 130, 0), Some(Response::Fail));
    let messages = server.take_messages();
    assert_eq!(messages.len(), 1);
    assert!(matches!(
        messages[0],
        BroadcastMessage::RobotAttacked { attacker_id: 1, target_id: 2 }
    ));

    for _ in 0..20 {
        let before = server.robots[1].data.hull_strength;
        let response =
            server.handle_request_for_robot(&1, Request::Attack { target_id: 2 }, Some(180));
        match response {
            Some(Response::AttackSuccess { target_id, damage }) => {
                assert_eq!(target_id, 2);
                assert!(100 <= damage && damage <= 250);
                assert_eq!(server.robots[1].data.hull_strength, before - damage);
            }
            other => panic!("no hit: {:?}", other),
        }
        assert_eq!(server.robots[1].data.attacked_from, 180);
    }
    server.robots[1].data.hull_strength = i32::MIN + 10;
    server.apply_attack(&1, &2, 100, 0);
    assert_eq!(server.robots[1].data.hull_strength, i32::MIN);
}

#[test]
fn stored_things_are_taken_in_by_rising_id() {
    let mut server = server(4, 0, 0);
    assert!(server.take_in_robot(robot(5, 0, 0, "none")));
    assert!(!server.take_in_robot(robot(5, 0, 1, "none")));
    assert!(!server.take_in_robot(robot(3, 0, 1, "none")));
    let mut spent = robot(6, 0, 1, "none");
    spent.data.power = -1;
    assert!(!server.take_in_robot(spent));
    assert!(server.take_in_robot(robot(6, 0, 1, "none")));
    assert_eq!(server.next_robot_id, 7);
    assert!(server.take_in_valuable(Valuable::new(4, at(0, 2), 5000)));
    assert!(!server.take_in_valuable(Valuable::new(5, at(0, 3), 5001)));
    assert!(!server.take_in_valuable(Valuable::new(5, at(0, 3), -1)));
    assert!(!server.take_in_valuable(Valuable::new(4, at(0, 3), 10)));
    assert_eq!(server.grid.get_valuable_id_by_loc(&at(0, 2)), Some(&4));
    assert_eq!(server.next_valuable_id, 5);
    assert!(server.spawn_robot());
    assert_eq!(server.robots[2].data.id, 7);
    assert_eq!(server.robots[2].get_coords(), at(0, 3));
}

#[test]
fn a_newcomer_is_told_the_world() {
    let mut server = server(3, 0, 0);
    assert!(server.take_in_robot(robot(1, 0, 0, "none")));
    server.spawn_valuable(&at(0, 2), 9);
    server.take_messages();
    server.send_initializer_data(12);
    let messages = server.take_messages();
    assert_eq!(messages.len(), 1);
    match &messages[0] {
        BroadcastMessage::InitializerData { id, cells, robots, valuables } => {
            assert_eq!(*id, 12);
            let ids: Vec<i32> = cells.iter().map(|c| c.id).collect();
            assert_eq!(ids, vec![0, 1, 2]);
            assert_eq!(robots.len(), 1);
            assert_eq!(robots[0].data.name, server.robots[0].data.name);
            assert_eq!(valuables.len(), 1);
            assert_eq!(valuables[0].amount, 9);
        }
        other => panic!("no snapshot: {:?}", other),
    }
    assert_eq!(server.take_messages().len(), 0);
}

#[test]
fn whom_a_robot_pursues() {
    let mut server = server(4, 0, 0);
    assert!(server.take_in_robot(robot(1, 0, 0, "blaster")));
    assert!(server.take_in_robot(robot(2, 0, 3, "none")));
    assert_eq!(server.pursuit_of(1), None);
    server.robots[0].update_pursuit_details(2, &at(0, 2));
    assert_eq!(server.pursuit_of(1), Some((at(0, 0), at(0, 3))));
    server.robots[0].update_pursuit_details(9, &at(0, 2));
    assert_eq!(server.pursuit_of(1), None);
    assert_eq!(server.pursuit_of(9), None);
}

#[test]
fn drawn_amounts_vary() {
    let mut amounts = Vec::new();
    for _ in 0..20 {
        let mut server = server(3, 0, 1);
        assert!(server.spawn_random_valuable());
        amounts.push(server.valuables[0].amount);
    }
    assert!(amounts.iter().all(|a| 50 <= *a && *a < 5000));
    assert!(amounts.iter().any(|a| *a != amounts[0]));
    assert!(amounts.iter().any(|a| *a != 50));
}

#[test]
fn spawned_robots_stand_in_different_places() {
    let mut places = Vec::new();
    for _ in 0..40 {
        let mut server = server(6, 1, 0);
        assert!(server.spawn_robot());
        places.push(server.robots[0].data.r);
    }
    assert!(places.iter().any(|r| *r != places[0]));
}

#[test]
fn a_turn_ends_with_word_of_the_robot() {
    let mut server = server(3, 0, 0);
    assert!(server.take_in_robot(robot(1, 0, 0, "none")));
    assert_eq!(server.take_messages().len(), 0);
    server.tick_robot(&1, None);
    let messages = server.take_messages();
    assert_eq!(messages.len(), 1);
    match &messages[0] {
        BroadcastMessage::RobotMoved { robot } => {
            let now = &server.robots[0];
            assert_eq!(robot.data.id, 1);
            assert_eq!(robot.data.status_text, now.data.status_text);
            assert_eq!((robot.data.q, robot.data.r), (now.data.q, now.data.r));
            assert_eq!(robot.data.power, now.data.power);
            assert_eq!(robot.active_process, now.active_process);
            assert_eq!(robot.known_cells, now.known_cells);
        }
        other => panic!("no word of the robot: {:?}", other),
    }
    // nothing happens for a robot that is not in the world
    server.tick_robot(&7, None);
    assert_eq!(server.take_messages().len(), 0);
    assert_eq!(server.robots.len(), 1);
}

#[test]
fn a_miner_hears_what_it_got() {
    let mut server = server(3, 0, 0);
    server.spawn_valuable(&at(0, 1), 17);
    let mut miner = robot(1, 0, 1, "none");
    miner.active_process = Some(Processes::Collect);
    assert!(server.take_in_robot(miner));
    server.take_messages();
    // a basic collector takes ten at a time
    server.tick_robot(&1, None);
    assert_eq!(server.valuables[0].amount, 7);
    assert_eq!(server.robots[0].data.val_inventory, 10);
    server.take_messages();
    server.tick_robot(&1, None);
    assert_eq!(server.valuables[0].amount, 0);
    assert_eq!(server.robots[0].data.val_inventory, 17);
    assert_eq!(server.robots[0].data.mined_amount, 17);
    let messages = server.take_messages();
    assert_eq!(messages.len(), 1);
    assert!(matches!(&messages[0], BroadcastMessage::RobotMoved { robot } if robot.data.val_inventory == 17));
    server.finish_tick();
    assert_eq!(server.valuables.len(), 0);
    assert_eq!(depleted(&server.take_messages()), vec![1]);
}

#[test]
fn a_new_robot_is_as_robots_are_made() {
    let mut server = server(4, 0, 0);
    assert!(server.spawn_robot());
    let robot = &server.robots[0];
    assert_eq!(robot.data.id, 1);
    assert_eq!(robot.data.name.len(), 8);
    assert!(robot.data.name.chars().all(|c| c.is_ascii_alphanumeric()));
    assert_eq!(robot.data.status_text, "I'm ready to work!");
    assert_eq!(robot.data.power, robot.data.max_power);
    assert_eq!(robot.data.hull_strength, robot.data.max_hull_strength);
    assert_eq!((robot.data.val_inventory, robot.data.mined_amount), (0, 0));
    assert_eq!(robot.data.pursuit_id, -1);
    assert_eq!(robot.data.exfil_countdown, -1);
    assert_eq!(robot.active_process, None);
    assert_eq!(robot.movement_queue, None);
    assert_eq!(robot.known_cells.len(), 0);
    assert_eq!(robot.modules.m_drivesystem, "basic");
    assert_eq!(robot.modules.m_exfilbeacon, "basic");
    assert_eq!(robot.modules.m_hull, "basic");
    let messages = server.take_messages();
    assert_eq!(messages.len(), 1);
    assert!(matches!(&messages[0], BroadcastMessage::RobotSpawned { robot } if robot.data.id == 1));
}
