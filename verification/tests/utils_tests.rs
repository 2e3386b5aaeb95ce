use ares::grid::coords::{Coords, Dir};
use ares::utils::{get_bearing, number_text, random_string};

/// The planar angle of a direction of travel, in whole degrees from the
/// vertical.
fn angle_between(from: Coords, to: Coords) -> i32 {
    let x1 = 3f64.sqrt() * (to.q - from.q) as f64;
    let y1 = ((to.q - from.q) + 2 * (to.r - from.r)) as f64;
    let cos = (x1 * 100.0) / ((x1.powi(2) + y1.powi(2)).sqrt() * 100.0);
    let ang1 = (cos.acos() * 180.0 / std::f64::consts::PI).round() - 90.0;
    let angle = if x1 == 0.0 {
        if y1 > 0.0 {
            0.0
        } else {
            180.0
        }
    } else if y1 == 0.0 {
        if x1 > 0.0 {
            90.0
        } else {
            270.0
        }
    } else if (x1 > 0.0) && (y1 > 0.0) {
        ang1.abs()
    } else if (x1 > 0.0) && (y1 < 0.0) {
        ang1.abs() + 90.0
    } else if (x1 < 0.0) && (y1 < 0.0) {
        ang1 + 180.0
    } else {
        90.0 - ang1 + 270.0
    };
    angle as i32
}

#[test]
fn test_bearings() {
    assert_eq!(
        0,
        get_bearing(
            Dir::Orient0,
            angle_between(Coords { q: 0, r: 0 }, Coords { q: 0, r: 5 })
        )
    );

    assert_eq!(
        -60,
        get_bearing(
            Dir::Orient0,
            angle_between(Coords { q: 0, r: 0 }, Coords { q: -2, r: 2 })
        )
    );

    assert_eq!(
        0,
        get_bearing(
            Dir::Orient180,
            angle_between(Coords { q: -2, r: 3 }, Coords { q: -2, r: 0 })
        )
    );

    assert_eq!(
        -120,
        get_bearing(
            Dir::Orient120,
            angle_between(Coords { q: -3, r: 4 }, Coords { q: -3, r: 6 })
        )
    );

    assert_eq!(
        -180,
        get_bearing(
            Dir::Orient240,
            angle_between(Coords { q: 1, r: -2 }, Coords { q: 3, r: -2 })
        )
    );
}

#[test]
fn bearing_is_taken_into_the_half_turns() {
    assert_eq!(get_bearing(Dir::Orient0, 0), 0);
    assert_eq!(get_bearing(Dir::Orient0, 180), 180);
    assert_eq!(get_bearing(Dir::Orient0, 181), -179);
    assert_eq!(get_bearing(Dir::Orient0, 300), -60);
    assert_eq!(get_bearing(Dir::Orient300, 0), 60);
    assert_eq!(get_bearing(Dir::Orient300, 119), 179);
    assert_eq!(get_bearing(Dir::Orient300, 120), -180);
    assert_eq!(get_bearing(Dir::Orient240, 60), -180);
    assert_eq!(get_bearing(Dir::Orient60, 360), -60);
}

#[test]
fn numbers_in_decimal() {
    assert_eq!(number_text(0), "0");
    assert_eq!(number_text(7), "7");
    assert_eq!(number_text(10), "10");
    assert_eq!(number_text(-1), "-1");
    assert_eq!(number_text(5000), "5000");
    assert_eq!(number_text(-934), "-934");
    assert_eq!(number_text(i64::MAX), "9223372036854775807");
    assert_eq!(number_text(i64::MIN), "-9223372036854775808");
}

#[test]
fn random_names() {
    let name = random_string(8);
    assert_eq!(name.chars().count(), 8);
    assert!(name.chars().all(|c| c.is_ascii_alphanumeric()));
    assert_eq!(random_string(0), "");
    let mut differ = false;
    for _ in 0..20 {
        if random_string(16) != random_string(16) {
            differ = true;
        }
    }
    assert!(differ);
}
