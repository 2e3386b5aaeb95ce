use ares::grid::coord_map::CoordMap;
use ares::grid::coords::{Coords, Dir};
use ares::grid::edge::EdgeType;
use ares::grid::grid::{Grid, GridCell};
use ares::grid::utils::generate_cells;
use ares::robot::robot::Robot;

/// A walled cell.
fn cell(id: i32, q: i32, r: i32) -> GridCell {
    GridCell::new(id, &Coords { q, r })
}

/// Four cells in a row upwards from the origin, open from one to the next.
fn corridor() -> Vec<GridCell> {
    let mut cells = vec![cell(0, 0, 0), cell(1, 0, 1), cell(2, 0, 2), cell(3, 0, 3)];
    for i in 0..3 {
        cells[i].change_side(&Dir::Orient0, EdgeType::Open);
        cells[i + 1].change_side(&Dir::Orient180, EdgeType::Open);
    }
    cells
}

fn robot_at(id: i64, q: i32, r: i32, weapon: &str) -> Robot {
    Robot::new(
        id,
        Coords { q, r },
        Dir::Orient0,
        Some(vec![("m_weapon".to_string(), weapon.to_string())]),
    )
}

#[test]
fn test_cell_creation() {
    let grid = Grid::new(4).unwrap();

    assert_eq!(61, grid.cells.len());
    assert_eq!(
        3,
        grid.get_cells(&Coords { q: 0, r: 0 }, Dir::Orient0, 0, 2)
            .len()
    );
    assert_eq!(
        6,
        grid.get_cells(&Coords { q: 0, r: 0 }, Dir::Orient0, 240, 1)
            .len()
    );
    assert_eq!(
        9,
        grid.get_cells(&Coords { q: 0, r: 0 }, Dir::Orient0, 120, 2)
            .len()
    );
    assert_eq!(
        15,
        grid.get_cells(&Coords { q: 0, r: 0 }, Dir::Orient0, 240, 2)
            .len()
    );
    assert_eq!(
        19,
        grid.get_cells(&Coords { q: 0, r: 0 }, Dir::Orient0, 360, 2)
            .len()
    );
}

#[test]
fn cell_starts_walled() {
    let c = cell(7, 1, -1);
    assert_eq!(c.id, 7);
    assert_eq!((c.q, c.r), (1, -1));
    assert!(!c.is_open());
    assert!(!c.is_fully_open());
    assert_eq!(c.get_walls(), Dir::get_vec());
    for dir in Dir::get_vec() {
        assert_eq!(c.get_side(dir), EdgeType::Wall);
    }
}

#[test]
fn cell_sides_change_one_by_one() {
    let mut c = cell(1, 0, 0);
    c.change_side(&Dir::Orient120, EdgeType::Open);
    assert!(c.is_open());
    assert!(!c.is_fully_open());
    assert_eq!(c.get_side(Dir::Orient120), EdgeType::Open);
    assert_eq!(c.edge120, EdgeType::Open);
    assert_eq!(
        c.get_walls(),
        vec![
            Dir::Orient0,
            Dir::Orient60,
            Dir::Orient180,
            Dir::Orient240,
            Dir::Orient300
        ]
    );
    for dir in Dir::get_vec() {
        c.change_side(&dir, EdgeType::Open);
    }
    assert!(c.is_fully_open());
    assert_eq!(c.get_walls().len(), 0);
    c.change_side(&Dir::Orient0, EdgeType::Wall);
    assert_eq!(c.get_walls(), vec![Dir::Orient0]);
}

#[test]
fn grid_size_is_checked() {
    assert_eq!(Grid::new(0).err(), Some("Improper grid size".to_string()));
    // a wider maze has more cells than can be numbered
    assert_eq!(Grid::new(26755).err(), Some("Improper grid size".to_string()));
    assert_eq!(Grid::new(u32::MAX).err(), Some("Improper grid size".to_string()));
    assert!(Grid::new(1).is_ok());
}

#[test]
fn small_mazes_are_discs() {
    for size in 1..7u32 {
        let grid = Grid::new(size).unwrap();
        let n = size as usize;
        assert_eq!(grid.cells.len(), 1 + 3 * n * (n + 1));
        assert_eq!(grid.cell_coords.len(), grid.cells.len());
        let origin = Coords { q: 0, r: 0 };
        for q in -(size as i32) - 1..size as i32 + 2 {
            for r in -(size as i32) - 1..size as i32 + 2 {
                let c = Coords { q, r };
                assert_eq!(
                    grid.cells.contains_key(&c),
                    origin.distance_to(&c) <= size as i32
                );
            }
        }
    }
}

#[test]
fn cell_ids_count_up_ring_by_ring() {
    let grid = Grid::new(3).unwrap();
    assert_eq!(grid.cell_coords[0], Coords { q: 0, r: 0 });
    assert_eq!(grid.cell_coords[1], Coords { q: -1, r: 1 });
    assert_eq!(grid.cell_coords[6], Coords { q: -1, r: 0 });
    assert_eq!(grid.cell_coords[7], Coords { q: -2, r: 1 });
    for (i, c) in grid.cell_coords.iter().enumerate() {
        let found = grid.cells.get(c).unwrap();
        assert_eq!(found.id, i as i32);
        assert_eq!((found.q, found.r), (c.q, c.r));
    }
}

#[test]
fn neighbours_agree_on_their_edge() {
    for _ in 0..5 {
        let grid = Grid::new(8).unwrap();
        for c in grid.cell_coords.iter() {
            let here = grid.cells.get(c).unwrap();
            for dir in Dir::get_vec() {
                match grid.cells.get(&c.to(&dir, 1)) {
                    Some(there) => {
                        assert_eq!(here.get_side(dir), there.get_side(dir.get_opposite()))
                    }
                    None => assert_eq!(here.get_side(dir), EdgeType::Wall),
                }
            }
        }
    }
}

#[test]
fn outer_ring_is_walled_outwards() {
    let size = 6;
    let grid = Grid::new(size).unwrap();
    let origin = Coords { q: 0, r: 0 };
    let mut on_ring = 0;
    for c in grid.cell_coords.iter() {
        if origin.distance_to(c) == size as i32 {
            on_ring += 1;
            for dir in Dir::get_vec() {
                if origin.distance_to(&c.to(&dir, 1)) > size as i32 {
                    assert_eq!(grid.cells.get(c).unwrap().get_side(dir), EdgeType::Wall);
                }
            }
        }
    }
    assert_eq!(on_ring, 6 * size);
}

#[test]
fn mazes_are_carved() {
    let grid = Grid::new(10).unwrap();
    let open = grid
        .cell_coords
        .iter()
        .filter(|c| grid.cells.get(c).unwrap().is_open())
        .count();
    assert!(open > 0);
    let (cells, coords) = generate_cells(5);
    assert_eq!(cells.len(), 91);
    assert_eq!(coords.len(), 91);
    // a maze of radius 4 is the smallest that gets rooms, and with them a
    // cell that is open on some side
    for _ in 0..20 {
        let (cells, coords) = generate_cells(4);
        assert!(coords.iter().any(|c| cells.get(c).unwrap().is_open()));
    }
    // a maze too small for a room stays walled, and no corridor starts
    for size in 1..4 {
        let (cells, coords) = generate_cells(size);
        assert!(coords.iter().all(|c| !cells.get(c).unwrap().is_open()));
    }
}

#[test]
fn sweep_of_no_distance_sees_the_origin_only() {
    let grid = Grid::new(4).unwrap();
    for dir in Dir::get_vec() {
        let origin = Coords { q: 1, r: -2 };
        let seen = grid.get_cells(&origin, dir, 360, 0);
        assert_eq!(seen.len(), 1);
        assert_eq!((seen[0].q, seen[0].r), (1, -2));
    }
    let outside = grid.get_cells(&Coords { q: 9, r: 9 }, Dir::Orient0, 360, 0);
    assert_eq!(outside.len(), 0);
}

#[test]
fn sweep_goes_ring_by_ring_from_the_left() {
    let grid = Grid::new(4).unwrap();
    let seen = grid.get_cells(&Coords { q: 0, r: 0 }, Dir::Orient0, 120, 2);
    let places: Vec<(i32, i32)> = seen.iter().map(|c| (c.q, c.r)).collect();
    assert_eq!(
        places,
        vec![
            (-1, 1),
            (0, 1),
            (1, 0),
            (-2, 2),
            (-1, 2),
            (0, 2),
            (1, 1),
            (2, 0),
            (0, 0)
        ]
    );
    let ahead = grid.get_cells(&Coords { q: 0, r: 0 }, Dir::Orient60, 0, 3);
    let places: Vec<(i32, i32)> = ahead.iter().map(|c| (c.q, c.r)).collect();
    assert_eq!(places, vec![(1, 0), (2, 0), (3, 0), (0, 0)]);
    let all_round = grid.get_cells(&Coords { q: 0, r: 0 }, Dir::Orient0, 360, 1);
    let places: Vec<(i32, i32)> = all_round.iter().map(|c| (c.q, c.r)).collect();
    assert_eq!(
        places,
        vec![(0, -1), (-1, 0), (-1, 1), (0, 1), (1, 0), (1, -1), (0, 0)]
    );
    let wide = grid.get_cells(&Coords { q: 0, r: 0 }, Dir::Orient0, 720, 1);
    assert_eq!(wide.len(), 7);
}

#[test]
fn sweep_skips_what_lies_outside() {
    let grid = Grid::new(2).unwrap();
    let seen = grid.get_cells(&Coords { q: 0, r: 2 }, Dir::Orient0, 360, 1);
    assert_eq!(seen.len(), 4);
    let none = grid.get_cells(&Coords { q: 0, r: 0 }, Dir::Orient0, 360, -3);
    assert_eq!(none.len(), 1);
}

#[test]
fn stored_cells_make_a_grid() {
    let grid = Grid::load(corridor()).unwrap();
    assert_eq!(grid.cells.len(), 4);
    assert_eq!(grid.cell_coords.len(), 4);
    assert_eq!(grid.less_than_guess, Some(4000));
    assert_eq!(grid.robot_locs.len(), 0);
    assert_eq!(grid.valuables_locs.len(), 0);
    let middle = grid.cells.get(&Coords { q: 0, r: 1 }).unwrap();
    assert_eq!(middle.id, 1);
    assert_eq!(middle.edge0, EdgeType::Open);
    assert_eq!(middle.edge180, EdgeType::Open);
    assert_eq!(middle.edge60, EdgeType::Wall);
}

#[test]
fn stored_cells_must_make_a_maze() {
    let mut one_sided = corridor();
    one_sided[1].change_side(&Dir::Orient180, EdgeType::Wall);
    assert!(Grid::load(one_sided).is_err());

    let mut leaking = corridor();
    leaking[3].change_side(&Dir::Orient0, EdgeType::Open);
    assert!(Grid::load(leaking).is_err());

    let far = vec![cell(0, 0x1000_0001, 0)];
    assert!(Grid::load(far).is_err());
    let near = vec![cell(0, 0x1000_0000, 0)];
    assert!(Grid::load(near).is_ok());
    assert!(Grid::load(Vec::new()).is_ok());
}

#[test]
fn later_stored_cell_takes_the_place() {
    let mut rows = corridor();
    let mut again = cell(9, 0, 3);
    again.change_side(&Dir::Orient180, EdgeType::Open);
    rows.push(again);
    let grid = Grid::load(rows).unwrap();
    assert_eq!(grid.cells.len(), 4);
    assert_eq!(grid.cells.get(&Coords { q: 0, r: 3 }).unwrap().id, 9);
}

#[test]
fn robots_are_indexed_both_ways() {
    let mut grid = Grid::load(corridor()).unwrap();
    let a = robot_at(1, 0, 0, "blaster");
    let b = robot_at(2, 0, 2, "none");
    grid.add_robot(&a);
    grid.add_robot(&b);
    assert_eq!(grid.get_robot_id_by_loc(&Coords { q: 0, r: 0 }), Some(&1));
    assert_eq!(grid.get_robot_id_by_loc(&Coords { q: 0, r: 2 }), Some(&2));
    assert_eq!(grid.get_robot_id_by_loc(&Coords { q: 0, r: 1 }), None);
    assert_eq!(grid.get_coords_by_robot_id(&1), Some(&Coords { q: 0, r: 0 }));
    assert_eq!(grid.get_coords_by_robot_id(&2), Some(&Coords { q: 0, r: 2 }));
    assert_eq!(grid.get_coords_by_robot_id(&3), None);
    assert_eq!(grid.robot_strengths.get(&1), Some(&250));
    assert_eq!(grid.robot_strengths.get(&2), Some(&0));
    assert_eq!(grid.robot_strengths.len(), 2);
    assert_eq!(grid.robot_locs.len(), 2);
}

#[test]
fn a_robot_moves_in_the_index() {
    let mut grid = Grid::load(corridor()).unwrap();
    grid.add_robot(&robot_at(1, 0, 0, "blaster"));
    grid.update_robot_loc(1, Coords { q: 0, r: 0 }, Coords { q: 0, r: 1 });
    assert_eq!(grid.get_robot_id_by_loc(&Coords { q: 0, r: 0 }), None);
    assert_eq!(grid.get_robot_id_by_loc(&Coords { q: 0, r: 1 }), Some(&1));
    assert_eq!(grid.get_coords_by_robot_id(&1), Some(&Coords { q: 0, r: 1 }));
    assert_eq!(grid.robot_strengths.get(&1), Some(&250));

    // a robot that does not stand where it is said to stand stays
    grid.update_robot_loc(1, Coords { q: 0, r: 3 }, Coords { q: 0, r: 2 });
    assert_eq!(grid.get_coords_by_robot_id(&1), Some(&Coords { q: 0, r: 1 }));
    grid.update_robot_loc(5, Coords { q: 0, r: 1 }, Coords { q: 0, r: 2 });
    assert_eq!(grid.get_robot_id_by_loc(&Coords { q: 0, r: 1 }), Some(&1));
    assert_eq!(grid.robot_locs.len(), 1);
}

#[test]
fn no_two_robots_share_a_cell() {
    let mut grid = Grid::load(corridor()).unwrap();
    grid.add_robot(&robot_at(1, 0, 0, "blaster"));
    grid.add_robot(&robot_at(2, 0, 0, "supreme_blaster"));
    assert_eq!(grid.get_robot_id_by_loc(&Coords { q: 0, r: 0 }), Some(&2));
    assert_eq!(grid.get_coords_by_robot_id(&1), None);
    assert_eq!(grid.robot_strengths.get(&1), None);
    assert_eq!(grid.robot_strengths.get(&2), Some(&500));
    assert_eq!(grid.robot_locs.len(), 1);

    // and no robot stands on two cells
    grid.add_robot(&robot_at(2, 0, 3, "supreme_blaster"));
    assert_eq!(grid.get_robot_id_by_loc(&Coords { q: 0, r: 0 }), None);
    assert_eq!(grid.get_coords_by_robot_id(&2), Some(&Coords { q: 0, r: 3 }));
    assert_eq!(grid.robot_locs.len(), 1);
    assert_eq!(grid.robot_strengths.len(), 1);
}

#[test]
fn strengths_go_with_the_robots() {
    let mut grid = Grid::load(corridor()).unwrap();
    grid.add_robot(&robot_at(1, 0, 0, "blaster"));
    grid.add_robot(&robot_at(2, 0, 1, "blaster"));
    grid.add_robot(&robot_at(3, 0, 2, "blaster"));
    grid.remove_robot_by_loc(&Coords { q: 0, r: 1 });
    assert_eq!(grid.robot_strengths.get(&2), None);
    assert_eq!(grid.get_coords_by_robot_id(&2), None);
    grid.remove_robot_by_loc(&Coords { q: 0, r: 3 });
    assert_eq!(grid.robot_strengths.len(), 2);
    grid.remove_robot_by_id(&3);
    assert_eq!(grid.robot_strengths.get(&3), None);
    assert_eq!(grid.get_robot_id_by_loc(&Coords { q: 0, r: 2 }), None);
    grid.remove_robot_by_id(&7);
    assert_eq!(grid.robot_strengths.len(), 1);
    assert_eq!(grid.robot_locs.len(), 1);
    assert_eq!(grid.get_robot_id_by_loc(&Coords { q: 0, r: 0 }), Some(&1));
}

#[test]
fn valuables_are_indexed() {
    let mut grid = Grid::load(corridor()).unwrap();
    grid.add_valuable(Coords { q: 0, r: 2 }, 11);
    assert_eq!(grid.get_valuable_id_by_loc(&Coords { q: 0, r: 2 }), Some(&11));
    assert_eq!(grid.get_valuable_id_by_loc(&Coords { q: 0, r: 1 }), None);
    grid.remove_valuable_by_loc(&Coords { q: 0, r: 2 });
    assert_eq!(grid.get_valuable_id_by_loc(&Coords { q: 0, r: 2 }), None);
}

#[test]
fn free_cells_are_open_and_empty() {
    let mut grid = Grid::load(corridor()).unwrap();
    grid.add_robot(&robot_at(1, 0, 0, "none"));
    grid.add_valuable(Coords { q: 0, r: 1 }, 1);
    assert!(!grid.is_vacant_open_cell(&Coords { q: 0, r: 0 }));
    assert!(!grid.is_vacant_open_cell(&Coords { q: 0, r: 1 }));
    assert!(grid.is_vacant_open_cell(&Coords { q: 0, r: 2 }));
    assert!(!grid.is_vacant_open_cell(&Coords { q: 5, r: 5 }));
    assert_eq!(
        grid.vacant_open_cells(),
        vec![Coords { q: 0, r: 2 }, Coords { q: 0, r: 3 }]
    );
    for _ in 0..20 {
        let found = grid.get_random_open_cell().unwrap();
        assert!(found == Coords { q: 0, r: 2 } || found == Coords { q: 0, r: 3 });
    }
    grid.add_valuable(Coords { q: 0, r: 2 }, 2);
    grid.add_valuable(Coords { q: 0, r: 3 }, 3);
    assert_eq!(grid.get_random_open_cell(), None);
}

#[test]
fn walled_grid_has_no_free_cell() {
    let mut grid = Grid::load(vec![cell(0, 0, 0), cell(1, 0, 1)]).unwrap();
    assert_eq!(grid.get_random_open_cell(), None);
}

#[test]
fn a_miss_shrinks_the_bound() {
    let mut grid = Grid::load(corridor()).unwrap();
    assert_eq!(grid.sample_cell(0, 2), Some(Coords { q: 0, r: 2 }));
    assert_eq!(grid.less_than_guess, Some(4000));
    assert_eq!(grid.sample_cell(-7, 3), None);
    assert_eq!(grid.less_than_guess, Some(7));
    assert_eq!(grid.sample_cell(2, -9), None);
    assert_eq!(grid.less_than_guess, Some(9));
    grid.add_valuable(Coords { q: 0, r: 1 }, 1);
    assert_eq!(grid.sample_cell(0, 1), None);
    assert_eq!(grid.less_than_guess, Some(9));
    assert_eq!(grid.sample_cell(i32::MIN, 0), None);
    assert_eq!(grid.less_than_guess, Some(0x1000_0000));
}

#[test]
fn map_by_position() {
    let mut map: CoordMap<i64> = CoordMap::new();
    assert_eq!(map.len(), 0);
    assert_eq!(map.insert(Coords { q: 1, r: 2 }, 5), None);
    assert_eq!(map.insert(Coords { q: 2, r: 1 }, 6), None);
    assert_eq!(map.insert(Coords { q: i32::MIN, r: i32::MAX }, 7), None);
    assert_eq!(map.insert(Coords { q: -1, r: -1 }, 8), None);
    assert_eq!(map.len(), 4);
    assert_eq!(map.get(&Coords { q: 1, r: 2 }), Some(&5));
    assert_eq!(map.get(&Coords { q: 2, r: 1 }), Some(&6));
    assert_eq!(map.get(&Coords { q: i32::MIN, r: i32::MAX }), Some(&7));
    assert_eq!(map.get(&Coords { q: -1, r: -1 }), Some(&8));
    assert_eq!(map.get(&Coords { q: 0, r: 0 }), None);
    assert_eq!(map.insert(Coords { q: 1, r: 2 }, 9), Some(5));
    assert_eq!(map.len(), 4);
    assert!(map.contains_key(&Coords { q: 1, r: 2 }));
    assert_eq!(map.remove(&Coords { q: 1, r: 2 }), Some(9));
    assert_eq!(map.remove(&Coords { q: 1, r: 2 }), None);
    assert!(!map.contains_key(&Coords { q: 1, r: 2 }));
    assert_eq!(map.len(), 3);
}

#[test]
fn cells_are_numbered_along_the_rings() {
    let grid = Grid::new(2).unwrap();
    let expected: [(i32, i32); 19] = [
        (0, 0),
        (-1, 1),
        (0, 1),
        (1, 0),
        (1, -1),
        (0, -1),
        (-1, 0),
        (-2, 1),
        (-2, 2),
        (-1, 2),
        (0, 2),
        (1, 1),
        (2, 0),
        (2, -1),
        (2, -2),
        (1, -2),
        (0, -2),
        (-1, -1),
        (-2, 0),
    ];
    assert_eq!(grid.cell_coords.len(), expected.len());
    for (i, (q, r)) in expected.iter().enumerate() {
        let c = Coords { q: *q, r: *r };
        assert_eq!(grid.cell_coords[i], c);
        assert_eq!(grid.cells.get(&c).unwrap().id, i as i32);
    }
    // the ring of radius 3 begins behind the 19 cells within it
    let wider = Grid::new(3).unwrap();
    assert_eq!(wider.cells.get(&Coords { q: -3, r: 1 }).unwrap().id, 19);
    assert_eq!(wider.cells.get(&Coords { q: -3, r: 0 }).unwrap().id, 36);
}

#[test]
fn load_says_what_is_wrong() {
    let mut one_sided = corridor();
    one_sided[1].change_side(&Dir::Orient180, EdgeType::Wall);
    assert_eq!(
        Grid::load(one_sided.clone()).err(),
        Some("Cells do not make a maze".to_string())
    );

    let far = vec![cell(0, 0, -0x1000_0001)];
    assert_eq!(Grid::load(far).err(), Some("Cell out of range".to_string()));

    // a cell out of range is told of before anything else
    one_sided.push(cell(4, 0x1000_0001, 0));
    assert_eq!(Grid::load(one_sided).err(), Some("Cell out of range".to_string()));
}

#[test]
fn stored_cells_are_listed_where_first_named() {
    let mut rows = corridor();
    let mut again = cell(9, 0, 1);
    again.change_side(&Dir::Orient0, EdgeType::Open);
    again.change_side(&Dir::Orient180, EdgeType::Open);
    rows.push(again);
    let grid = Grid::load(rows).unwrap();
    assert_eq!(
        grid.cell_coords,
        vec![
            Coords { q: 0, r: 0 },
            Coords { q: 0, r: 1 },
            Coords { q: 0, r: 2 },
            Coords { q: 0, r: 3 }
        ]
    );
    assert_eq!(grid.cells.get(&Coords { q: 0, r: 1 }).unwrap().id, 9);
}
