use ares::grid::coords::{Coords, CoordsAndDir, CoordsKind, Dir};
use ares::grid::edge::EdgeType;

#[test]
fn test_dir_conversions() {
    let d1: Dir = 60.into();
    let d2: i32 = Dir::Orient300.into();
    let d3: Dir = 55.into();

    assert_eq!(d1, Dir::Orient60);
    assert_eq!(d2, 300);
    assert_eq!(d3, Dir::Orient0);
}

#[test]
fn coords_convert_to_cube() {
    let coords = Coords { q: 0, r: 0 };
    if let CoordsKind::Cube { x, y, z } = coords.to_cube() {
        assert_eq!(x, 0);
        assert_eq!(y, 0);
        assert_eq!(z, 0);
    } else {
        panic!("Got the wrong type back from to_axial")
    }

    let coords = Coords { q: -2, r: 0 };
    if let CoordsKind::Cube { x, y, z } = coords.to_cube() {
        assert_eq!(x, -2);
        assert_eq!(y, 0);
        assert_eq!(z, 2);
    }

    let coords = Coords { q: 1, r: 1 };
    if let CoordsKind::Cube { x, y, z } = coords.to_cube() {
        assert_eq!(x, 1);
        assert_eq!(y, 1);
        assert_eq!(z, -2);
    }
}

#[test]
fn test_distance() {
    let coords = Coords { q: 0, r: 0 };
    assert_eq!(coords.distance_to(&Coords { q: 0, r: 4 }), 4);
    assert_eq!(coords.distance_to(&Coords { q: -2, r: 3 }), 3);
}

#[test]
fn test_to() {
    let coords = Coords { q: 0, r: 0 };

    let coords1 = coords.to(&Dir::Orient0, 5);
    let coords2 = coords.to(&Dir::Orient60, 24);
    let coords3 = coords.to(&Dir::Orient120, 4);
    let coords4 = coords.to(&Dir::Orient180, 934);
    let coords5 = coords.to(&Dir::Orient240, 2);
    let coords6 = coords.to(&Dir::Orient300, 32);

    assert_eq!(coords1, Coords { q: 0, r: 5 });
    assert_eq!(coords2, Coords { q: 24, r: 0 });
    assert_eq!(coords3, Coords { q: 4, r: -4 });
    assert_eq!(coords4, Coords { q: 0, r: -934 });
    assert_eq!(coords5, Coords { q: -2, r: 0 });
    assert_eq!(coords6, Coords { q: -32, r: 32 });
}

#[test]
fn convert_int_and_edge_type() {
    let e0: EdgeType = 0.into();
    assert_eq!(e0, EdgeType::Open);

    let e1: EdgeType = 1.into();
    assert_eq!(e1, EdgeType::Wall);

    let i0: i32 = EdgeType::Open.into();
    assert_eq!(i0, 0);

    let i1: i32 = EdgeType::Wall.into();
    assert_eq!(i1, 1);
}

#[test]
fn edge_from_small_numbers() {
    let stored: i16 = 7;
    let e: EdgeType = stored.into();
    assert_eq!(e, EdgeType::Wall);
    let open: i16 = EdgeType::Open.into();
    assert_eq!(open, 0);
    let wall: i16 = EdgeType::Wall.into();
    assert_eq!(wall, 1);
}

#[test]
fn dir_from_angles_beyond_a_turn() {
    let a: Dir = 420.into();
    assert_eq!(a, Dir::Orient60);
    let b: Dir = (-60).into();
    assert_eq!(b, Dir::Orient300);
    let c: Dir = 360.into();
    assert_eq!(c, Dir::Orient0);
    let small: i16 = 240;
    let d: Dir = small.into();
    assert_eq!(d, Dir::Orient240);
    let back: i16 = Dir::Orient120.into();
    assert_eq!(back, 120);
    let by_ref: i32 = (&Dir::Orient180).into();
    assert_eq!(by_ref, 180);
}

#[test]
fn turning_left_and_right() {
    assert_eq!(Dir::Orient0.left(60), Dir::Orient300);
    assert_eq!(Dir::Orient0.right(60), Dir::Orient60);
    assert_eq!(Dir::Orient300.right(60), Dir::Orient0);
    assert_eq!(Dir::Orient120.left(180), Dir::Orient300);
    assert_eq!(Dir::Orient240.right(360), Dir::Orient240);
    assert_eq!(Dir::Orient60.left(0), Dir::Orient60);
}

#[test]
fn left_then_right_gives_the_direction_back() {
    for dir in Dir::get_vec() {
        for k in -20..21 {
            assert_eq!(dir.left(k * 60).right(k * 60), dir);
        }
    }
    assert_eq!(Dir::Orient0.left(13 * 60), Dir::Orient300);
    assert_eq!(Dir::Orient0.left(13 * 60).right(13 * 60), Dir::Orient0);
}

#[test]
fn opposite_is_the_half_turn() {
    assert_eq!(Dir::Orient0.get_opposite(), Dir::Orient180);
    assert_eq!(Dir::Orient60.get_opposite(), Dir::Orient240);
    assert_eq!(Dir::Orient120.get_opposite(), Dir::Orient300);
    assert_eq!(Dir::Orient180.get_opposite(), Dir::Orient0);
    assert_eq!(Dir::Orient240.get_opposite(), Dir::Orient60);
    assert_eq!(Dir::Orient300.get_opposite(), Dir::Orient120);
    for dir in Dir::get_vec() {
        assert_eq!(dir.get_opposite(), dir.right(180));
    }
}

#[test]
fn the_six_directions() {
    assert_eq!(
        Dir::get_vec(),
        vec![
            Dir::Orient0,
            Dir::Orient60,
            Dir::Orient120,
            Dir::Orient180,
            Dir::Orient240,
            Dir::Orient300
        ]
    );
    let picked = Dir::get_random();
    assert!(Dir::get_vec().contains(&picked));
}

#[test]
fn side_scan_fans_out_from_the_start() {
    assert_eq!(
        Dir::get_side_scan_iter(Dir::Orient0),
        vec![
            Dir::Orient0,
            Dir::Orient300,
            Dir::Orient60,
            Dir::Orient240,
            Dir::Orient120,
            Dir::Orient180
        ]
    );
    assert_eq!(
        Dir::get_side_scan_iter(Dir::Orient240),
        vec![
            Dir::Orient240,
            Dir::Orient180,
            Dir::Orient300,
            Dir::Orient120,
            Dir::Orient0,
            Dir::Orient60
        ]
    );
}

#[test]
fn step_and_step_back() {
    let c = Coords { q: 3, r: -7 };
    for dir in Dir::get_vec() {
        for n in 0..6 {
            let there = c.to(&dir, n);
            assert_eq!(there.to(&dir.get_opposite(), n), c);
            assert_eq!(c.distance_to(&there), n);
        }
    }
}

#[test]
fn distance_to_self_and_to_neighbours() {
    let c = Coords { q: -4, r: 9 };
    assert_eq!(c.distance_to(&c), 0);
    for dir in Dir::get_vec() {
        assert_eq!(c.distance_to(&c.to(&dir, 1)), 1);
    }
    assert_eq!(c.wide_distance_to(&Coords { q: -4, r: 12 }), 3);
    let far = Coords { q: i32::MAX, r: i32::MAX };
    let other = Coords { q: i32::MIN, r: i32::MIN };
    assert_eq!(far.wide_distance_to(&other), 2 * 4294967295);
}

#[test]
fn cube_and_axial_forms() {
    let c = Coords { q: 5, r: -2 };
    assert_eq!(c.to_axial(), CoordsKind::Axial { q: 5, r: -2 });
    assert_eq!(c.to_cube(), CoordsKind::Cube { x: 5, y: -2, z: -3 });
    assert_eq!(c.to_cube().to_axial(), c.to_axial());
    assert_eq!(c.to_axial().to_axial(), c.to_axial());
    let at = CoordsAndDir { coords: c, dir: Dir::Orient60 };
    assert_eq!(at.coords, c);
    assert_eq!(at.dir.to_degrees(), 60);
}

#[test]
fn a_number_drawn_stands_for_a_direction() {
    assert_eq!(Dir::from_draw(0), Dir::Orient0);
    assert_eq!(Dir::from_draw(1), Dir::Orient60);
    assert_eq!(Dir::from_draw(2), Dir::Orient120);
    assert_eq!(Dir::from_draw(3), Dir::Orient180);
    assert_eq!(Dir::from_draw(4), Dir::Orient240);
    assert_eq!(Dir::from_draw(5), Dir::Orient300);
    assert_eq!(Dir::from_draw(6), Dir::Orient0);
    assert_eq!(Dir::from_draw(-1), Dir::Orient0);
}

#[test]
fn sampled_directions_vary() {
    let first = Dir::sample();
    let mut other = false;
    for _ in 0..400 {
        if Dir::sample() != first {
            other = true;
        }
    }
    assert!(other);
}
