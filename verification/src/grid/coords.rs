//! Axial and cube coordinates on a hexagonal grid, and the six directions.

use vstd::prelude::*;
use vstd::arithmetic::div_mod::{lemma_fundamental_div_mod, lemma_mod_multiples_vanish};
use vstd::std_specs::convert::FromSpecImpl;

use crate::utils::{pick_one, random_in_range};

verus! {

/// Coordinates in one of the two equivalent integer systems of a hex grid.
#[derive(Debug, Clone, Copy, PartialEq, Eq, Structural)]
pub enum CoordsKind {
    Axial { q: i32, r: i32 },
    Cube { x: i32, y: i32, z: i32 },
}

/// One of the six orientations on the grid, named by its angle in degrees.
#[derive(Copy, Clone, Debug, Hash, PartialEq, Eq, Structural)]
pub enum Dir {
    Orient0,
    Orient60,
    Orient120,
    Orient180,
    Orient240,
    Orient300,
}

/// The direction that an angle in degrees names: the angle is taken modulo
/// 360, and an angle that is no multiple of 60 names `Orient0`.
pub open spec fn dir_of_degrees(angle: int) -> Dir {
    let a = angle % 360;
    if a == 60 {
        Dir::Orient60
    } else if a == 120 {
        Dir::Orient120
    } else if a == 180 {
        Dir::Orient180
    } else if a == 240 {
        Dir::Orient240
    } else if a == 300 {
        Dir::Orient300
    } else {
        Dir::Orient0
    }
}

/// Takes an angle into `0..360`.
fn normalize_degrees(angle: i32) -> (a: i32)
    ensures
        a == angle as int % 360,
{
    let wide: i64 = angle as i64;
    let shifted: i64 = wide + 2147483880;
    assert(shifted >= 0);
    assert(2147483880int % 360 == 0) by (nonlinear_arith);
    assert((wide + 2147483880) % 360 == wide % 360) by (nonlinear_arith)
        requires
            2147483880int % 360 == 0,
    ;
    (shifted % 360) as i32
}

/// The direction that an angle in degrees names.
fn dir_from_degrees(angle: i32) -> (d: Dir)
    ensures
        d == dir_of_degrees(angle as int),
{
    let a: i32 = normalize_degrees(angle);
    if a == 60 {
        Dir::Orient60
    } else if a == 120 {
        Dir::Orient120
    } else if a == 180 {
        Dir::Orient180
    } else if a == 240 {
        Dir::Orient240
    } else if a == 300 {
        Dir::Orient300
    } else {
        Dir::Orient0
    }
}

impl From<i16> for Dir {
    fn from(item: i16) -> (d: Dir) {
        dir_from_degrees(item as i32)
    }
}

impl FromSpecImpl<i16> for Dir {
    open spec fn obeys_from_spec() -> bool {
        true
    }

    open spec fn from_spec(item: i16) -> Dir {
        dir_of_degrees(item as int)
    }
}

impl From<i32> for Dir {
    fn from(item: i32) -> (d: Dir) {
        dir_from_degrees(item)
    }
}

impl FromSpecImpl<i32> for Dir {
    open spec fn obeys_from_spec() -> bool {
        true
    }

    open spec fn from_spec(item: i32) -> Dir {
        dir_of_degrees(item as int)
    }
}

impl From<Dir> for i16 {
    fn from(item: Dir) -> (a: i16) {
        item.to_degrees() as i16
    }
}

impl FromSpecImpl<Dir> for i16 {
    open spec fn obeys_from_spec() -> bool {
        true
    }

    open spec fn from_spec(item: Dir) -> i16 {
        item.degrees() as i16
    }
}

impl From<Dir> for i32 {
    fn from(item: Dir) -> (a: i32) {
        item.to_degrees()
    }
}

impl FromSpecImpl<Dir> for i32 {
    open spec fn obeys_from_spec() -> bool {
        true
    }

    open spec fn from_spec(item: Dir) -> i32 {
        item.degrees() as i32
    }
}

impl From<&Dir> for i32 {
    fn from(item: &Dir) -> (a: i32) {
        item.to_degrees()
    }
}

impl FromSpecImpl<&Dir> for i32 {
    open spec fn obeys_from_spec() -> bool {
        true
    }

    open spec fn from_spec(item: &Dir) -> i32 {
        item.degrees() as i32
    }
}

impl Dir {
    /// The angle of this direction in degrees.
    pub open spec fn degrees(self) -> int {
        match self {
            Dir::Orient0 => 0,
            Dir::Orient60 => 60,
            Dir::Orient120 => 120,
            Dir::Orient180 => 180,
            Dir::Orient240 => 240,
            Dir::Orient300 => 300,
        }
    }

    /// The direction reached by turning left by `angle` degrees.
    pub open spec fn spec_left(self, angle: int) -> Dir {
        dir_of_degrees(self.degrees() - angle)
    }

    /// The direction reached by turning right by `angle` degrees.
    pub open spec fn spec_right(self, angle: int) -> Dir {
        dir_of_degrees(self.degrees() + angle)
    }

    /// The direction that points the other way.
    pub open spec fn opposite(self) -> Dir {
        match self {
            Dir::Orient0 => Dir::Orient180,
            Dir::Orient60 => Dir::Orient240,
            Dir::Orient120 => Dir::Orient300,
            Dir::Orient180 => Dir::Orient0,
            Dir::Orient240 => Dir::Orient60,
            Dir::Orient300 => Dir::Orient120,
        }
    }

    /// The change of `q` on one step in this direction.
    pub open spec fn dq(self) -> int {
        match self {
            Dir::Orient0 => 0,
            Dir::Orient60 => 1,
            Dir::Orient120 => 1,
            Dir::Orient180 => 0,
            Dir::Orient240 => -1,
            Dir::Orient300 => -1,
        }
    }

    /// The change of `r` on one step in this direction.
    pub open spec fn dr(self) -> int {
        match self {
            Dir::Orient0 => 1,
            Dir::Orient60 => 0,
            Dir::Orient120 => -1,
            Dir::Orient180 => -1,
            Dir::Orient240 => 0,
            Dir::Orient300 => 1,
        }
    }

    /// The direction reached by `n` turns of 60 degrees to the right.
    pub open spec fn turned(self, n: int) -> Dir
        decreases n,
    {
        if n <= 0 {
            self
        } else {
            self.turned(n - 1).spec_right(60)
        }
    }

    /// The six directions in the order in which a path search tries them from
    /// `start`: straight on first, then left and right by turns, wider each
    /// time, and the way back last.
    pub open spec fn side_scan_order(start: Dir) -> Seq<Dir> {
        seq![
            start,
            start.spec_left(60),
            start.spec_right(60),
            start.spec_left(120),
            start.spec_right(120),
            start.spec_left(180),
        ]
    }

    /// The six directions by rising angle.
    pub open spec fn all() -> Seq<Dir> {
        seq![
            Dir::Orient0,
            Dir::Orient60,
            Dir::Orient120,
            Dir::Orient180,
            Dir::Orient240,
            Dir::Orient300,
        ]
    }

    /// The angle of this direction in degrees.
    pub fn to_degrees(&self) -> (a: i32)
        ensures
            a == self.degrees(),
    {
        match self {
            Dir::Orient0 => 0,
            Dir::Orient60 => 60,
            Dir::Orient120 => 120,
            Dir::Orient180 => 180,
            Dir::Orient240 => 240,
            Dir::Orient300 => 300,
        }
    }

    /// The direction reached by turning left by `angle` degrees.
    pub fn left(&self, angle: i32) -> (d: Dir)
        ensures
            d == self.spec_left(angle as int),
    {
        let a: i32 = normalize_degrees(angle);
        let turned: i32 = self.to_degrees() - a;
        assert((self.degrees() - angle) % 360 == (self.degrees() - (angle as int % 360)) % 360)
            by (nonlinear_arith);
        dir_from_degrees(turned)
    }

    /// The direction reached by turning right by `angle` degrees.
    pub fn right(&self, angle: i32) -> (d: Dir)
        ensures
            d == self.spec_right(angle as int),
    {
        let a: i32 = normalize_degrees(angle);
        let turned: i32 = self.to_degrees() + a;
        assert((self.degrees() + angle) % 360 == (self.degrees() + (angle as int % 360)) % 360)
            by (nonlinear_arith);
        dir_from_degrees(turned)
    }

    /// The six directions by rising angle.
    pub fn get_vec() -> (dirs: Vec<Dir>)
        ensures
            dirs@ == Dir::all(),
    {
        let dirs = vec![
            Dir::Orient0,
            Dir::Orient60,
            Dir::Orient120,
            Dir::Orient180,
            Dir::Orient240,
            Dir::Orient300,
        ];
        assert(dirs@ =~= Dir::all());
        dirs
    }

    /// Picks one of the six directions at random.
    pub fn get_random() -> (d: Dir) {
        let dirs = Dir::get_vec();
        match pick_one(&dirs) {
            Some(d) => d,
            None => Dir::Orient0,
        }
    }

    /// The direction that stands for a number drawn: the six directions in
    /// the order of their angles for the numbers from 0 to 5, and the first
    /// of them for any other number.
    pub open spec fn of_draw(n: int) -> Dir {
        if n == 1 {
            Dir::Orient60
        } else if n == 2 {
            Dir::Orient120
        } else if n == 3 {
            Dir::Orient180
        } else if n == 4 {
            Dir::Orient240
        } else if n == 5 {
            Dir::Orient300
        } else {
            Dir::Orient0
        }
    }

    /// The direction that stands for a number drawn.
    pub fn from_draw(n: i32) -> (d: Dir)
        ensures
            d == Dir::of_draw(n as int),
    {
        match n {
            0 => Dir::Orient0,
            1 => Dir::Orient60,
            2 => Dir::Orient120,
            3 => Dir::Orient180,
            4 => Dir::Orient240,
            5 => Dir::Orient300,
            _ => Dir::Orient0,
        }
    }

    /// Draws a number from 0 to 5 and gives the direction that stands for
    /// it.
    pub fn sample() -> (d: Dir) {
        Dir::from_draw(random_in_range(0, 6))
    }

    /// Starting with the given orientation, the six orientations as a search
    /// tries them: switching from left to right, wider each time.
    pub fn get_side_scan_iter(start: Dir) -> (dirs: Vec<Dir>)
        ensures
            dirs@ == Dir::side_scan_order(start),
    {
        let dirs = vec![
            start,
            start.left(60),
            start.right(60),
            start.left(120),
            start.right(120),
            start.left(180),
        ];
        assert(dirs@ =~= Dir::side_scan_order(start));
        dirs
    }

    /// Get the opposite side
    pub fn get_opposite(&self) -> (d: Dir)
        ensures
            d == self.opposite(),
    {
        match self {
            Dir::Orient0 => Dir::Orient180,
            Dir::Orient60 => Dir::Orient240,
            Dir::Orient120 => Dir::Orient300,
            Dir::Orient180 => Dir::Orient0,
            Dir::Orient240 => Dir::Orient60,
            Dir::Orient300 => Dir::Orient120,
        }
    }
}

/// Turning left and then right by the same multiple of 60 degrees gives the
/// direction back.
pub proof fn lemma_left_right_round_trip(dir: Dir, k: int)
    ensures
        dir.spec_left(k * 60).spec_right(k * 60) == dir,
{
    let turns = k / 6;
    let m = k % 6;
    lemma_fundamental_div_mod(k, 6);
    assert(k * 60 == 360 * turns + 60 * m);
    lemma_mod_multiples_vanish(-turns, dir.degrees() - 60 * m, 360);
    assert(dir.degrees() - k * 60 == 360 * (-turns) + (dir.degrees() - 60 * m));
    let a = (dir.degrees() - k * 60) % 360;
    assert(a == (dir.degrees() - 60 * m) % 360);
    lemma_mod_multiples_vanish(turns, a + 60 * m, 360);
    assert(a + k * 60 == 360 * turns + (a + 60 * m));
    assert((a + k * 60) % 360 == (a + 60 * m) % 360);
}

/// The direction to the right of each direction, and the one to its left.
pub proof fn lemma_turn_tables(d: Dir)
    ensures
        d.spec_right(60) == (match d {
            Dir::Orient0 => Dir::Orient60,
            Dir::Orient60 => Dir::Orient120,
            Dir::Orient120 => Dir::Orient180,
            Dir::Orient180 => Dir::Orient240,
            Dir::Orient240 => Dir::Orient300,
            Dir::Orient300 => Dir::Orient0,
        }),
        d.spec_left(60) == (match d {
            Dir::Orient0 => Dir::Orient300,
            Dir::Orient60 => Dir::Orient0,
            Dir::Orient120 => Dir::Orient60,
            Dir::Orient180 => Dir::Orient120,
            Dir::Orient240 => Dir::Orient180,
            Dir::Orient300 => Dir::Orient240,
        }),
{
}

/// The place of the direction `d` in the order in which a search that
/// favours the direction `start` tries the directions.
pub open spec fn scan_index(start: Dir, d: Dir) -> int {
    let turn = (d.degrees() - start.degrees() + 360) % 360;
    if turn == 0 {
        0
    } else if turn == 300 {
        1
    } else if turn == 60 {
        2
    } else if turn == 240 {
        3
    } else if turn == 120 {
        4
    } else {
        5
    }
}

/// Every direction has its place in the order in which a search tries the
/// directions.
pub proof fn lemma_scan_order_complete(start: Dir, d: Dir) -> (t: int)
    ensures
        t == scan_index(start, d),
        0 <= t < 6,
        Dir::side_scan_order(start).len() == 6,
        Dir::side_scan_order(start)[t] == d,
{
    let order = Dir::side_scan_order(start);
    assert(order[0] == start);
    assert(order[1] == start.spec_left(60));
    assert(order[2] == start.spec_right(60));
    assert(order[3] == start.spec_left(120));
    assert(order[4] == start.spec_right(120));
    assert(order[5] == start.spec_left(180));
    scan_index(start, d)
}

/// The direction at a place of the order in which a search tries the
/// directions has that place.
pub proof fn lemma_scan_index_at(start: Dir, t: int)
    requires
        0 <= t < 6,
    ensures
        scan_index(start, Dir::side_scan_order(start)[t]) == t,
{
    let order = Dir::side_scan_order(start);
    assert(order[0] == start);
    assert(order[1] == start.spec_left(60));
    assert(order[2] == start.spec_right(60));
    assert(order[3] == start.spec_left(120));
    assert(order[4] == start.spec_right(120));
    assert(order[5] == start.spec_left(180));
}

/// The opposite of a direction is the half turn, to either side.
pub proof fn lemma_opposite_is_half_turn(dir: Dir)
    ensures
        dir.opposite() == dir.spec_right(180),
        dir.opposite() == dir.spec_left(180),
        dir.opposite().opposite() == dir,
{
}

/// A position on the grid, in axial coordinates.
#[derive(Copy, Clone, PartialEq, Eq, Hash, Debug, Structural)]
pub struct Coords {
    pub q: i32,
    pub r: i32,
}

/// The hex distance between two positions given by their axial coordinates:
/// half the sum of the three differences in cube form.
pub open spec fn hex_distance(aq: int, ar: int, bq: int, br: int) -> int {
    let dx = aq - bq;
    let dy = ar - br;
    let dz = (0 - aq - ar) - (0 - bq - br);
    ((if dx < 0 { -dx } else { dx }) + (if dy < 0 { -dy } else { dy }) + (if dz < 0 { -dz } else { dz })) / 2
}

impl CoordsKind {
    /// The axial form of these coordinates.
    pub open spec fn axial(self) -> CoordsKind {
        match self {
            CoordsKind::Axial { q, r } => CoordsKind::Axial { q, r },
            CoordsKind::Cube { x, y, z } => CoordsKind::Axial { q: x, r: y },
        }
    }

    /// The axial form of these coordinates.
    pub fn to_axial(&self) -> (k: CoordsKind)
        ensures
            k == self.axial(),
    {
        match self {
            CoordsKind::Axial { q, r } => CoordsKind::Axial { q: *q, r: *r },
            CoordsKind::Cube { x, y, z: _ } => CoordsKind::Axial { q: *x, r: *y },
        }
    }
}

impl Coords {
    /// The position `dist` steps from here in direction `dir`, where it has
    /// coordinates that fit.
    pub open spec fn step(self, dir: Dir, dist: int) -> Coords {
        Coords { q: (self.q + dir.dq() * dist) as i32, r: (self.r + dir.dr() * dist) as i32 }
    }

    /// Whether the position `dist` steps from here in direction `dir` has
    /// coordinates that fit in `i32`.
    pub open spec fn can_step(self, dir: Dir, dist: int) -> bool {
        &&& i32::MIN <= self.q + dir.dq() * dist <= i32::MAX
        &&& i32::MIN <= self.r + dir.dr() * dist <= i32::MAX
    }

    /// The hex distance from here to `target`.
    pub open spec fn distance(self, target: Coords) -> int {
        hex_distance(self.q as int, self.r as int, target.q as int, target.r as int)
    }

    /// The cube form of a position, where its third coordinate fits.
    pub open spec fn spec_cube(self) -> CoordsKind {
        CoordsKind::Cube { x: self.q, y: self.r, z: (0 - self.q - self.r) as i32 }
    }

    /// The position in axial form.
    pub fn to_axial(&self) -> (k: CoordsKind)
        ensures
            k == (CoordsKind::Axial { q: self.q, r: self.r }),
    {
        CoordsKind::Axial { q: self.q, r: self.r }
    }

    /// The position in cube form: the three coordinates add up to nothing.
    pub fn to_cube(&self) -> (k: CoordsKind)
        requires
            i32::MIN <= 0 - self.q - self.r <= i32::MAX,
        ensures
            k == self.spec_cube(),
            k matches CoordsKind::Cube { x, y, z } && x + y + z == 0,
    {
        let z: i64 = 0 - self.q as i64 - self.r as i64;
        CoordsKind::Cube { x: self.q, y: self.r, z: z as i32 }
    }

    /// The position `dist` steps from here in direction `dir`.
    pub fn to(&self, dir: &Dir, dist: i32) -> (c: Coords)
        requires
            self.can_step(*dir, dist as int),
        ensures
            c == self.step(*dir, dist as int),
    {
        let mut q: i32 = self.q;
        let mut r: i32 = self.r;

        match dir {
            Dir::Orient0 => r = r + dist,
            Dir::Orient60 => q = q + dist,
            Dir::Orient120 => {
                q = q + dist;
                r = r - dist;
            },
            Dir::Orient180 => r = r - dist,
            Dir::Orient240 => q = q - dist,
            Dir::Orient300 => {
                q = q - dist;
                r = r + dist;
            },
        }

        Coords { q, r }
    }

    /// The distance between these coords and a target, however far apart
    /// the two lie.
    pub fn wide_distance_to(&self, target: &Coords) -> (d: i64)
        ensures
            d == self.distance(*target),
            0 <= d <= 0x2_0000_0000,
    {
        let dx: i64 = self.q as i64 - target.q as i64;
        let dy: i64 = self.r as i64 - target.r as i64;
        let dz: i64 = (0 - self.q as i64 - self.r as i64) - (0 - target.q as i64 - target.r as i64);
        let ax: i64 = if dx < 0 { -dx } else { dx };
        let ay: i64 = if dy < 0 { -dy } else { dy };
        let az: i64 = if dz < 0 { -dz } else { dz };
        (ax + ay + az) / 2
    }

    /// Get the distance between these coords and a target
    pub fn distance_to(&self, target: &Coords) -> (d: i32)
        requires
            self.distance(*target) <= i32::MAX,
        ensures
            d == self.distance(*target),
    {
        let dx: i64 = self.q as i64 - target.q as i64;
        let dy: i64 = self.r as i64 - target.r as i64;
        let dz: i64 = (0 - self.q as i64 - self.r as i64) - (0 - target.q as i64 - target.r as i64);
        let ax: i64 = if dx < 0 { -dx } else { dx };
        let ay: i64 = if dy < 0 { -dy } else { dy };
        let az: i64 = if dz < 0 { -dz } else { dz };
        ((ax + ay + az) / 2) as i32
    }
}

/// A position together with a facing.
#[derive(Debug, Clone, Copy, PartialEq, Eq, Structural)]
pub struct CoordsAndDir {
    pub coords: Coords,
    pub dir: Dir,
}

/// Stepping `n` cells one way and `n` cells the opposite way leads back.
pub proof fn lemma_step_back(c: Coords, d: Dir, n: int)
    requires
        c.can_step(d, n),
    ensures
        c.step(d, n).can_step(d.opposite(), n),
        c.step(d, n).step(d.opposite(), n) == c,
{
}

/// The cube form of a position has the position as its axial form.
pub proof fn lemma_cube_axial_round_trip(c: Coords)
    ensures
        c.spec_cube().axial() == (CoordsKind::Axial { q: c.q, r: c.r }),
{
}

/// A position is at distance 0 from itself.
pub proof fn lemma_distance_self(c: Coords)
    ensures
        c.distance(c) == 0,
{
}

/// A position is at distance 1 from each of its six neighbours.
pub proof fn lemma_distance_neighbour(c: Coords, d: Dir)
    requires
        c.can_step(d, 1),
    ensures
        c.distance(c.step(d, 1)) == 1,
        c.step(d, 1).distance(c) == 1,
{
}

/// Distance is symmetric and never negative.
pub proof fn lemma_distance_symmetric(a: Coords, b: Coords)
    ensures
        a.distance(b) == b.distance(a),
        a.distance(b) >= 0,
{
}

/// A position `n` steps away along one direction is at distance `n`.
pub proof fn lemma_distance_along(c: Coords, d: Dir, n: int)
    requires
        n >= 0,
        c.can_step(d, n),
    ensures
        c.distance(c.step(d, n)) == n,
{
}

} // verus!
