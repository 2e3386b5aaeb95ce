//! Cells with their six edges, and the grid: the cells by position and the
//! indices that say where robots and valuables stand.

use std::collections::HashMap;
use vstd::prelude::*;
use vstd::string::StringExecFns;

use crate::grid::coord_map::CoordMap;
use crate::grid::coords::{Coords, Dir};
use crate::grid::edge::EdgeType;
use crate::grid::utils::{
    cell_number, generate_cells, in_disc, maze_carved, room_count, MAX_GRID_SIZE,
};
use crate::robot::modules::weapon::{weapon_max_damage, WeaponModule};
use crate::robot::robot::Robot;
use crate::utils::{pick_one, random_in_range};

verus! {

broadcast use vstd::std_specs::hash::group_hash_axioms;

/// No cell of a grid lies farther than this from the origin, on either axis.
pub const COORD_LIMIT: i32 = 0x1000_0000;

/// Whether a position lies within the range that grids use.
pub open spec fn within_limit(c: Coords) -> bool {
    -COORD_LIMIT <= c.q <= COORD_LIMIT && -COORD_LIMIT <= c.r <= COORD_LIMIT
}

/// One hexagonal cell of the maze.
#[derive(Clone, Copy, Debug, PartialEq, Eq, Structural)]
pub struct GridCell {
    pub id: i32,
    pub q: i32,
    pub r: i32,
    pub edge0: EdgeType,
    pub edge60: EdgeType,
    pub edge120: EdgeType,
    pub edge180: EdgeType,
    pub edge240: EdgeType,
    pub edge300: EdgeType,
}

impl GridCell {
    /// The edge of the cell on the side `d`.
    pub open spec fn side(self, d: Dir) -> EdgeType {
        match d {
            Dir::Orient0 => self.edge0,
            Dir::Orient60 => self.edge60,
            Dir::Orient120 => self.edge120,
            Dir::Orient180 => self.edge180,
            Dir::Orient240 => self.edge240,
            Dir::Orient300 => self.edge300,
        }
    }

    /// The cell with the edge on the side `d` replaced.
    pub open spec fn with_side(self, d: Dir, e: EdgeType) -> GridCell {
        match d {
            Dir::Orient0 => GridCell { edge0: e, ..self },
            Dir::Orient60 => GridCell { edge60: e, ..self },
            Dir::Orient120 => GridCell { edge120: e, ..self },
            Dir::Orient180 => GridCell { edge180: e, ..self },
            Dir::Orient240 => GridCell { edge240: e, ..self },
            Dir::Orient300 => GridCell { edge300: e, ..self },
        }
    }

    /// Where the cell lies.
    pub open spec fn coords(self) -> Coords {
        Coords { q: self.q, r: self.r }
    }

    /// Whether at least one side of the cell is no wall.
    pub open spec fn partly_open(self) -> bool {
        exists|d: Dir| self.side(d) != EdgeType::Wall
    }

    /// Whether no side of the cell is a wall.
    pub open spec fn fully_open(self) -> bool {
        forall|d: Dir| self.side(d) != EdgeType::Wall
    }

    /// The walled sides of the first `n` directions, by rising angle.
    pub open spec fn walls_among(self, n: int) -> Seq<Dir>
        decreases n,
    {
        if n <= 0 {
            Seq::empty()
        } else {
            let before = self.walls_among(n - 1);
            let d = Dir::all()[n - 1];
            if self.side(d) == EdgeType::Wall {
                before.push(d)
            } else {
                before
            }
        }
    }

    /// The walled sides of the cell, by rising angle.
    pub open spec fn walls(self) -> Seq<Dir> {
        self.walls_among(6)
    }

    /// A cell with walls on all sides.
    pub fn new(id: i32, coords: &Coords) -> (cell: GridCell)
        ensures
            cell.id == id,
            cell.coords() == *coords,
            forall|d: Dir| cell.side(d) == EdgeType::Wall,
    {
        GridCell {
            id: id,
            q: coords.q,
            r: coords.r,
            edge0: EdgeType::Wall,
            edge60: EdgeType::Wall,
            edge120: EdgeType::Wall,
            edge180: EdgeType::Wall,
            edge240: EdgeType::Wall,
            edge300: EdgeType::Wall,
        }
    }

    /// Whether at least one side of the cell is no wall.
    pub fn is_open(&self) -> (open: bool)
        ensures
            open == self.partly_open(),
    {
        let open = self.edge0 != EdgeType::Wall || self.edge60 != EdgeType::Wall || self.edge120
            != EdgeType::Wall || self.edge180 != EdgeType::Wall || self.edge240 != EdgeType::Wall
            || self.edge300 != EdgeType::Wall;
        proof {
            if open {
                let d = if self.edge0 != EdgeType::Wall {
                    Dir::Orient0
                } else if self.edge60 != EdgeType::Wall {
                    Dir::Orient60
                } else if self.edge120 != EdgeType::Wall {
                    Dir::Orient120
                } else if self.edge180 != EdgeType::Wall {
                    Dir::Orient180
                } else if self.edge240 != EdgeType::Wall {
                    Dir::Orient240
                } else {
                    Dir::Orient300
                };
                assert(self.side(d) != EdgeType::Wall);
            }
        }
        open
    }

    /// Whether no side of the cell is a wall.
    pub fn is_fully_open(&self) -> (open: bool)
        ensures
            open == self.fully_open(),
    {
        let open = self.edge0 != EdgeType::Wall && self.edge60 != EdgeType::Wall && self.edge120
            != EdgeType::Wall && self.edge180 != EdgeType::Wall && self.edge240 != EdgeType::Wall
            && self.edge300 != EdgeType::Wall;
        proof {
            if !open {
                let d = if self.edge0 == EdgeType::Wall {
                    Dir::Orient0
                } else if self.edge60 == EdgeType::Wall {
                    Dir::Orient60
                } else if self.edge120 == EdgeType::Wall {
                    Dir::Orient120
                } else if self.edge180 == EdgeType::Wall {
                    Dir::Orient180
                } else if self.edge240 == EdgeType::Wall {
                    Dir::Orient240
                } else {
                    Dir::Orient300
                };
                assert(self.side(d) == EdgeType::Wall);
            }
        }
        open
    }

    /// Get the orientations that are walls
    pub fn get_walls(&self) -> (walls: Vec<Dir>)
        ensures
            walls@ == self.walls(),
            forall|d: Dir| walls@.contains(d) <==> self.side(d) == EdgeType::Wall,
    {
        let mut walls: Vec<Dir> = Vec::new();
        let dirs = Dir::get_vec();
        let mut i: usize = 0;
        while i < 6
            invariant
                i <= 6,
                dirs@ == Dir::all(),
                walls@ == self.walls_among(i as int),
                forall|d: Dir| walls@.contains(d) ==> self.side(d) == EdgeType::Wall,
                forall|k: int| 0 <= k < i && self.side(#[trigger] dirs@[k]) == EdgeType::Wall
                    ==> walls@.contains(dirs@[k]),
            decreases 6 - i,
        {
            let dir = dirs[i];
            let ghost before = walls@;
            if self.get_side(dir) == EdgeType::Wall {
                walls.push(dir);
                proof {
                    assert(walls@.last() == dir);
                    assert forall|d: Dir| walls@.contains(d) implies self.side(d)
                        == EdgeType::Wall by {
                        let k = choose|k: int| 0 <= k < walls@.len() && walls@[k] == d;
                        if k < before.len() {
                            assert(before[k] == d);
                            assert(before.contains(d));
                        }
                    }
                    assert forall|k: int|
                        0 <= k < i + 1 && self.side(#[trigger] dirs@[k])
                            == EdgeType::Wall implies walls@.contains(dirs@[k]) by {
                        if k < i {
                            assert(before.contains(dirs@[k]));
                            let j = choose|j: int| 0 <= j < before.len() && before[j] == dirs@[k];
                            assert(walls@[j] == dirs@[k]);
                        } else {
                            assert(walls@[walls@.len() - 1] == dirs@[k]);
                        }
                    }
                }
            }
            i = i + 1;
        }
        proof {
            assert forall|d: Dir| self.side(d) == EdgeType::Wall implies walls@.contains(d) by {
                let k: int = match d {
                    Dir::Orient0 => 0,
                    Dir::Orient60 => 1,
                    Dir::Orient120 => 2,
                    Dir::Orient180 => 3,
                    Dir::Orient240 => 4,
                    Dir::Orient300 => 5,
                };
                assert(dirs@[k] == d);
            }
        }
        walls
    }

    /// Get the side of the cell based on orientation
    pub fn get_side(&self, orientation: Dir) -> (e: EdgeType)
        ensures
            e == self.side(orientation),
    {
        match orientation {
            Dir::Orient0 => self.edge0,
            Dir::Orient60 => self.edge60,
            Dir::Orient120 => self.edge120,
            Dir::Orient180 => self.edge180,
            Dir::Orient240 => self.edge240,
            Dir::Orient300 => self.edge300,
        }
    }

    /// Sets the side of the cell based on orientation
    pub fn change_side(&mut self, orientation: &Dir, edge_type: EdgeType)
        ensures
            *final(self) == old(self).with_side(*orientation, edge_type),
    {
        match orientation {
            Dir::Orient0 => self.edge0 = edge_type,
            Dir::Orient60 => self.edge60 = edge_type,
            Dir::Orient120 => self.edge120 = edge_type,
            Dir::Orient180 => self.edge180 = edge_type,
            Dir::Orient240 => self.edge240 = edge_type,
            Dir::Orient300 => self.edge300 = edge_type,
        };
    }
}

/// Every cell is filed under its own position, within the range that grids
/// use.
pub open spec fn cells_consistent(cells: Map<Coords, GridCell>) -> bool {
    forall|c: Coords| #[trigger] cells.contains_key(c) ==> cells[c].coords() == c && within_limit(c)
}

/// Edge reciprocity: wherever two cells are neighbours, each sees the same
/// edge between them.
pub open spec fn cells_reciprocal(cells: Map<Coords, GridCell>) -> bool {
    forall|c: Coords, d: Dir|
        cells.contains_key(c) && cells.contains_key(#[trigger] c.step(d, 1)) ==> cells[c].side(d)
            == cells[c.step(d, 1)].side(d.opposite())
}

/// Perimeter closure: an edge with no cell behind it is a wall.
pub open spec fn cells_closed(cells: Map<Coords, GridCell>) -> bool {
    forall|c: Coords, d: Dir|
        cells.contains_key(c) && !cells.contains_key(#[trigger] c.step(d, 1)) ==> cells[c].side(d)
            == EdgeType::Wall
}

/// What holds of the cells of every grid.
pub open spec fn cells_wf(cells: Map<Coords, GridCell>) -> bool {
    &&& cells_consistent(cells)
    &&& cells_reciprocal(cells)
    &&& cells_closed(cells)
}

/// Half of a field of view, rounded towards zero.
pub open spec fn half_fov(fov: int) -> int {
    if fov >= 0 {
        fov / 2
    } else {
        -((-fov) / 2)
    }
}

/// The number of sides of a ring that a field of view covers: one for every
/// 60 degrees begun, and no more than the six there are.
pub open spec fn sweep_arms(fov: int) -> int {
    if fov <= 0 {
        0
    } else if fov > 300 {
        6
    } else {
        (fov + 59) / 60
    }
}

/// The position `j` steps along side `i` of the ring of radius `r` round
/// `start`, the ring's sides counted from the corner in direction `arm`.
pub open spec fn ring_cell(start: Coords, arm: Dir, r: int, i: int, j: int) -> Coords {
    start.step(arm.turned(i), r).step(arm.turned(i + 2), j)
}

/// How many steps a sweep takes along side `i` of the ring of radius `r`:
/// the sixth side stops one short, where the ring began.
pub open spec fn segment_len(r: int, i: int) -> int {
    if i == 5 {
        r - 1
    } else {
        r
    }
}

/// The positions along side `i` of a ring, beyond the corner it starts at.
pub open spec fn ring_segment(start: Coords, arm: Dir, r: int, i: int) -> Seq<Coords> {
    Seq::new(segment_len(r, i) as nat, |j: int| ring_cell(start, arm, r, i, j + 1))
}

/// The first corner of a ring and its first `arms` sides.
pub open spec fn ring_arc(start: Coords, arm: Dir, r: int, arms: int) -> Seq<Coords>
    decreases arms,
{
    if arms <= 0 {
        seq![start.step(arm, r)]
    } else {
        ring_arc(start, arm, r, arms - 1) + ring_segment(start, arm, r, arms - 1)
    }
}

/// The arcs of the rings of radius 1 to `distance`, nearest first.
pub open spec fn sweep_rings(start: Coords, arm: Dir, arms: int, distance: int) -> Seq<Coords>
    decreases distance,
{
    if distance <= 0 {
        Seq::empty()
    } else {
        sweep_rings(start, arm, arms, distance - 1) + ring_arc(start, arm, distance, arms)
    }
}

/// The positions in view from `start` for an observer facing `dir`: ring by
/// ring outwards, each ring from the left edge of the field of view
/// rightwards, and `start` itself last.
pub open spec fn sweep(start: Coords, dir: Dir, fov: int, distance: int) -> Seq<Coords> {
    sweep_rings(start, dir.spec_left(half_fov(fov)), sweep_arms(fov), distance).push(start)
}

/// The cells that lie at the positions of `s`, in the order of `s`.
pub open spec fn present_cells(cells: Map<Coords, GridCell>, s: Seq<Coords>) -> Seq<GridCell>
    decreases s.len(),
{
    if s.len() == 0 {
        Seq::empty()
    } else {
        let rest = present_cells(cells, s.drop_last());
        if cells.contains_key(s.last()) {
            rest.push(cells[s.last()])
        } else {
            rest
        }
    }
}

/// Two positions that grids allow are no farther apart than fits.
pub proof fn lemma_distance_fits(a: Coords, b: Coords)
    requires
        within_limit(a),
        within_limit(b),
    ensures
        0 <= a.distance(b) <= 4 * COORD_LIMIT,
{
}

/// A step of a length that grids allow, from a position that grids allow,
/// ends at a position whose coordinates fit.
pub proof fn lemma_step_near(c: Coords, d: Dir, n: int)
    requires
        within_limit(c),
        -COORD_LIMIT <= n <= COORD_LIMIT,
    ensures
        c.can_step(d, n),
        c.q - COORD_LIMIT <= c.step(d, n).q <= c.q + COORD_LIMIT,
        c.r - COORD_LIMIT <= c.step(d, n).r <= c.r + COORD_LIMIT,
{
    assert(-COORD_LIMIT <= d.dq() * n <= COORD_LIMIT) by (nonlinear_arith)
        requires
            -1 <= d.dq() <= 1,
            -COORD_LIMIT <= n <= COORD_LIMIT,
    ;
    assert(-COORD_LIMIT <= d.dr() * n <= COORD_LIMIT) by (nonlinear_arith)
        requires
            -1 <= d.dr() <= 1,
            -COORD_LIMIT <= n <= COORD_LIMIT,
    ;
}

/// One step to the right of a direction, twice over.
pub proof fn lemma_turns(d: Dir)
    ensures
        d.spec_right(60) == (match d {
            Dir::Orient0 => Dir::Orient60,
            Dir::Orient60 => Dir::Orient120,
            Dir::Orient120 => Dir::Orient180,
            Dir::Orient180 => Dir::Orient240,
            Dir::Orient240 => Dir::Orient300,
            Dir::Orient300 => Dir::Orient0,
        }),
        d.spec_right(60).spec_right(60).dq() == d.spec_right(60).dq() - d.dq(),
        d.spec_right(60).spec_right(60).dr() == d.spec_right(60).dr() - d.dr(),
{
}

/// Going along a side of a ring from its corner leads to the next corner.
pub proof fn lemma_next_corner(c: Coords, d: Dir, r: int)
    requires
        within_limit(c),
        0 <= r <= COORD_LIMIT,
    ensures
        c.step(d, r).step(d.spec_right(60).spec_right(60), r) == c.step(d.spec_right(60), r),
{
    lemma_turns(d);
    let e = d.spec_right(60);
    let f = e.spec_right(60);
    lemma_step_near(c, d, r);
    lemma_step_near(c, e, r);
    assert(f.dq() * r == e.dq() * r - d.dq() * r) by (nonlinear_arith)
        requires
            f.dq() == e.dq() - d.dq(),
    ;
    assert(f.dr() * r == e.dr() * r - d.dr() * r) by (nonlinear_arith)
        requires
            f.dr() == e.dr() - d.dr(),
    ;
}

/// Going round a corner of a ring: the end of one side is the start of the
/// next.
pub proof fn lemma_ring_corner(start: Coords, arm: Dir, r: int, i: int)
    requires
        within_limit(start),
        0 <= r <= COORD_LIMIT,
        0 <= i,
    ensures
        ring_cell(start, arm, r, i, r) == ring_cell(start, arm, r, i + 1, 0),
{
    let d = arm.turned(i);
    assert(arm.turned(i + 1) == d.spec_right(60));
    assert(arm.turned(i + 2) == d.spec_right(60).spec_right(60));
    lemma_next_corner(start, d, r);
    lemma_step_near(start, d.spec_right(60), r);
    assert(start.step(d.spec_right(60), r).step(arm.turned(i + 3), 0) == start.step(
        d.spec_right(60),
        r,
    ));
}

/// Every position of a ring stays near the ring's centre.
pub proof fn lemma_ring_cell_near(start: Coords, arm: Dir, r: int, i: int, j: int)
    requires
        within_limit(start),
        0 <= r <= COORD_LIMIT,
        0 <= j <= r,
    ensures
        ({
            let c = ring_cell(start, arm, r, i, j);
            &&& start.q - 2 * COORD_LIMIT <= c.q <= start.q + 2 * COORD_LIMIT
            &&& start.r - 2 * COORD_LIMIT <= c.r <= start.r + 2 * COORD_LIMIT
            &&& c.can_step(arm.turned(i + 2), 1)
            &&& j < r ==> c.step(arm.turned(i + 2), 1) == ring_cell(start, arm, r, i, j + 1)
        }),
{
    let d1 = arm.turned(i);
    let d2 = arm.turned(i + 2);
    assert(-1 <= d1.dq() <= 1 && -1 <= d1.dr() <= 1);
    assert(-1 <= d2.dq() <= 1 && -1 <= d2.dr() <= 1);
    assert(-r <= d1.dq() * r <= r) by (nonlinear_arith)
        requires
            -1 <= d1.dq() <= 1,
            0 <= r,
    ;
    assert(-r <= d1.dr() * r <= r) by (nonlinear_arith)
        requires
            -1 <= d1.dr() <= 1,
            0 <= r,
    ;
    assert(-j <= d2.dq() * j <= j) by (nonlinear_arith)
        requires
            -1 <= d2.dq() <= 1,
            0 <= j,
    ;
    assert(-j <= d2.dr() * j <= j) by (nonlinear_arith)
        requires
            -1 <= d2.dr() <= 1,
            0 <= j,
    ;
    assert(d2.dq() * (j + 1) == d2.dq() * j + d2.dq()) by (nonlinear_arith);
    assert(d2.dr() * (j + 1) == d2.dr() * j + d2.dr()) by (nonlinear_arith);
}

/// A sweep of no distance sees the cell under the observer and nothing else.
pub proof fn lemma_sweep_origin_only(
    cells: Map<Coords, GridCell>,
    origin: Coords,
    dir: Dir,
    fov: int,
)
    ensures
        sweep(origin, dir, fov, 0) == seq![origin],
        present_cells(cells, sweep(origin, dir, fov, 0)) == (if cells.contains_key(origin) {
            seq![cells[origin]]
        } else {
            Seq::empty()
        }),
{
    let s = sweep(origin, dir, fov, 0);
    assert(s =~= seq![origin]);
    assert(s.drop_last() =~= Seq::<Coords>::empty());
    assert(present_cells(cells, s.drop_last()) =~= Seq::<GridCell>::empty());
    if cells.contains_key(origin) {
        assert(present_cells(cells, s) =~= seq![cells[origin]]);
    }
}

/// Every cell found at the positions of a list is the grid's cell at its own
/// position.
pub proof fn lemma_present_cells_are_cells(cells: Map<Coords, GridCell>, s: Seq<Coords>, i: int)
    requires
        cells_consistent(cells),
        0 <= i < present_cells(cells, s).len(),
    ensures
        cells.contains_key(present_cells(cells, s)[i].coords()),
        cells[present_cells(cells, s)[i].coords()] == present_cells(cells, s)[i],
        within_limit(present_cells(cells, s)[i].coords()),
    decreases s.len(),
{
    if s.len() > 0 {
        let rest = present_cells(cells, s.drop_last());
        if i < rest.len() {
            lemma_present_cells_are_cells(cells, s.drop_last(), i);
        }
    }
}

/// A cell found at one more position of a sweep comes last.
pub proof fn lemma_present_cells_push(cells: Map<Coords, GridCell>, s: Seq<Coords>, c: Coords)
    ensures
        present_cells(cells, s.push(c)) == (if cells.contains_key(c) {
            present_cells(cells, s).push(cells[c])
        } else {
            present_cells(cells, s)
        }),
{
    assert(s.push(c).drop_last() =~= s);
}

/// How many positions are tried at random for a free cell before the cells
/// are gone through one by one.
pub const SAMPLE_ATTEMPTS: u32 = 1000;

/// The cells that a list of stored cells makes: each filed under its
/// position, a later one in place of an earlier one at the same position.
pub open spec fn cells_of_rows(rows: Seq<GridCell>) -> Map<Coords, GridCell>
    decreases rows.len(),
{
    if rows.len() == 0 {
        Map::empty()
    } else {
        cells_of_rows(rows.drop_last()).insert(rows.last().coords(), rows.last())
    }
}

/// The cells that a list of cells makes are the cells of the list, each
/// under its own position.
pub proof fn lemma_cells_of_rows(rows: Seq<GridCell>)
    requires
        rows_within_limit(rows),
    ensures
        cells_consistent(cells_of_rows(rows)),
        forall|c: Coords| #[trigger]
            cells_of_rows(rows).contains_key(c) ==> exists|i: int|
                0 <= i < rows.len() && rows[i] == cells_of_rows(rows)[c],
        forall|i: int|
            0 <= i < rows.len() ==> cells_of_rows(rows).contains_key((#[trigger] rows[i]).coords()),
    decreases rows.len(),
{
    if rows.len() > 0 {
        let before = rows.drop_last();
        assert(rows_within_limit(before)) by {
            assert forall|i: int| 0 <= i < before.len() implies within_limit(
                #[trigger] before[i].coords(),
            ) by {
                assert(before[i] == rows[i]);
            }
        }
        lemma_cells_of_rows(before);
        let made = cells_of_rows(rows);
        assert forall|c: Coords| #[trigger] made.contains_key(c) implies exists|i: int|
            0 <= i < rows.len() && rows[i] == made[c] by {
            if c == rows.last().coords() {
                assert(rows[rows.len() - 1] == made[c]);
            } else {
                let i = choose|i: int| 0 <= i < before.len() && before[i] == cells_of_rows(before)[c];
                assert(rows[i] == made[c]);
            }
        }
        assert forall|i: int| 0 <= i < rows.len() implies made.contains_key(
            (#[trigger] rows[i]).coords(),
        ) by {
            if i < before.len() {
                assert(before[i] == rows[i]);
            }
        }
    }
}

/// The positions of the cells of a list of stored cells, each once, in the
/// order in which the list first names them.
pub open spec fn places_of_rows(rows: Seq<GridCell>) -> Seq<Coords>
    decreases rows.len(),
{
    if rows.len() == 0 {
        Seq::empty()
    } else {
        let before = places_of_rows(rows.drop_last());
        if before.contains(rows.last().coords()) {
            before
        } else {
            before.push(rows.last().coords())
        }
    }
}

/// Whether every cell of a list lies within the range that grids use.
pub open spec fn rows_within_limit(rows: Seq<GridCell>) -> bool {
    forall|i: int| 0 <= i < rows.len() ==> within_limit(#[trigger] rows[i].coords())
}

/// The larger of the two coordinates of a rejected position, each without
/// its sign, and no more than the range that grids use.
pub open spec fn shrunk_guess(q: int, r: int) -> int {
    let aq = if q < 0 { -q } else { q };
    let ar = if r < 0 { -r } else { r };
    let m = if aq > ar { aq } else { ar };
    if m > COORD_LIMIT {
        COORD_LIMIT as int
    } else {
        m
    }
}

/// The world's map: the cells by position, which never change once the maze
/// is made, and the indices of where robots and valuables stand.
#[derive(Clone, Debug)]
pub struct Grid {
    pub cells: CoordMap<GridCell>,
    pub robot_locs: CoordMap<i64>,
    pub robot_strengths: HashMap<i64, i32>,
    pub valuables_locs: CoordMap<i64>,
    /// Where each robot stands: `robot_locs` read the other way.
    pub robot_coords: HashMap<i64, Coords>,
    /// The positions of all cells, in the order in which the cells were made.
    pub cell_coords: Vec<Coords>,
    /// The bound within which free cells are looked for at random.
    pub less_than_guess: Option<i32>,
}

impl Grid {
    /// Where the robot `id` stands, if the grid knows it.
    pub open spec fn robot_position(&self, id: i64) -> Option<Coords> {
        if self.robot_coords@.contains_key(id) {
            Some(self.robot_coords@[id])
        } else {
            None
        }
    }

    /// The positions of all cells, in the order in which the cells were made.
    pub open spec fn cell_list(&self) -> Seq<Coords> {
        self.cell_coords@
    }

    /// The bound within which free cells are looked for at random.
    pub open spec fn guess(&self) -> Option<i32> {
        self.less_than_guess
    }

    /// The robot index and the record of where each robot stands say the
    /// same, and the weapon strengths are those of the robots that stand
    /// somewhere.
    pub open spec fn index_wf(&self) -> bool {
        &&& forall|c: Coords| #[trigger]
            self.robot_locs@.contains_key(c) ==> self.robot_coords@.contains_key(
                self.robot_locs@[c],
            ) && self.robot_coords@[self.robot_locs@[c]] == c
        &&& forall|id: i64| #[trigger]
            self.robot_coords@.contains_key(id) ==> self.robot_locs@.contains_key(
                self.robot_coords@[id],
            ) && self.robot_locs@[self.robot_coords@[id]] == id
        &&& self.robot_strengths@.dom() == self.robot_coords@.dom()
    }

    /// The list of positions names the cells, each once.
    pub open spec fn list_wf(&self) -> bool {
        &&& forall|c: Coords| self.cells@.contains_key(c) <==> self.cell_coords@.contains(c)
        &&& self.cell_coords@.no_duplicates()
        &&& match self.less_than_guess {
            Some(g) => 0 <= g <= COORD_LIMIT,
            None => true,
        }
    }

    /// What holds of a grid in every state.
    pub open spec fn wf(&self) -> bool {
        &&& cells_wf(self.cells@)
        &&& self.index_wf()
        &&& self.list_wf()
    }

    /// Whether a robot or a valuable could be put down at `c`: a cell lies
    /// there, at least one of its sides is open, and nothing stands on it.
    pub open spec fn vacant_open(&self, c: Coords) -> bool {
        &&& self.cells@.contains_key(c)
        &&& self.cells@[c].partly_open()
        &&& !self.robot_locs@.contains_key(c)
        &&& !self.valuables_locs@.contains_key(c)
    }

    /// Where a robot stands is where the index has it, and nowhere else.
    pub proof fn lemma_robot_position(&self, id: i64, c: Coords)
        requires
            self.wf(),
        ensures
            self.robot_position(id) == Some(c) <==> self.robot_locs@.contains_key(c)
                && self.robot_locs@[c] == id,
    {
    }

    /// No robot stands on two cells, and no cell holds two robots.
    pub proof fn lemma_robots_unique(&self, c1: Coords, c2: Coords)
        requires
            self.wf(),
            self.robot_locs@.contains_key(c1),
            self.robot_locs@.contains_key(c2),
            self.robot_locs@[c1] == self.robot_locs@[c2],
        ensures
            c1 == c2,
    {
    }

    /// A robot's weapon strength is on record exactly while the robot stands
    /// on some cell.
    pub proof fn lemma_strengths_in_step(&self, id: i64)
        requires
            self.wf(),
        ensures
            self.robot_strengths@.contains_key(id) <==> exists|c: Coords|
                self.robot_locs@.contains_key(c) && self.robot_locs@[c] == id,
    {
        if self.robot_strengths@.contains_key(id) {
            assert(self.robot_coords@.dom().contains(id));
            let c = self.robot_coords@[id];
            assert(self.robot_locs@.contains_key(c) && self.robot_locs@[c] == id);
        }
        if exists|c: Coords| self.robot_locs@.contains_key(c) && self.robot_locs@[c] == id {
            let c = choose|c: Coords| self.robot_locs@.contains_key(c) && self.robot_locs@[c] == id;
            assert(self.robot_coords@.contains_key(self.robot_locs@[c]));
            assert(self.robot_coords@.dom().contains(id));
        }
    }

    /// Wherever two cells of the grid are neighbours, each sees the same edge
    /// between them.
    pub proof fn lemma_edges_reciprocal(&self, a: Coords, d: Dir)
        requires
            self.wf(),
            self.cells@.contains_key(a),
            self.cells@.contains_key(a.step(d, 1)),
        ensures
            self.cells@[a].side(d) == self.cells@[a.step(d, 1)].side(d.opposite()),
    {
    }

    /// An edge of a cell of the grid that leads to no cell is a wall.
    pub proof fn lemma_perimeter_closed(&self, a: Coords, d: Dir)
        requires
            self.wf(),
            self.cells@.contains_key(a),
            !self.cells@.contains_key(a.step(d, 1)),
        ensures
            self.cells@[a].side(d) == EdgeType::Wall,
    {
    }

    /// Whether `other` is this grid but for the bound within which free
    /// cells are looked for.
    pub open spec fn same_but_guess(&self, other: &Grid) -> bool {
        &&& other.cells@ == self.cells@
        &&& other.robot_locs@ == self.robot_locs@
        &&& other.robot_strengths@ == self.robot_strengths@
        &&& other.valuables_locs@ == self.valuables_locs@
        &&& other.robot_coords@ == self.robot_coords@
        &&& other.cell_coords@ == self.cell_coords@
    }

    /// Whether a robot or a valuable could be put down at a position.
    pub open spec fn is_vacant_open(&self) -> spec_fn(Coords) -> bool {
        |c: Coords| self.vacant_open(c)
    }

    /// Builds the grid from stored cells. The cells are taken only where
    /// they make a maze: each within the range that grids use, neighbours
    /// agreeing on the edge between them, and a wall wherever no cell lies
    /// behind an edge. Else the error says which of the two fails.
    pub fn load(rows: Vec<GridCell>) -> (loaded: Result<Grid, String>)
        ensures
            match loaded {
                Ok(grid) => {
                    &&& rows_within_limit(rows@)
                    &&& grid.wf()
                    &&& grid.cells@ == cells_of_rows(rows@)
                    &&& grid.cell_list() == places_of_rows(rows@)
                    &&& grid.robot_locs@ == Map::<Coords, i64>::empty()
                    &&& grid.robot_strengths@ == Map::<i64, i32>::empty()
                    &&& grid.valuables_locs@ == Map::<Coords, i64>::empty()
                    &&& grid.guess() == Some(4000i32)
                },
                Err(reason) => if !rows_within_limit(rows@) {
                    reason@ == "Cell out of range"@
                } else {
                    !cells_wf(cells_of_rows(rows@)) && reason@ == "Cells do not make a maze"@
                },
            },
    {
        let mut cells: CoordMap<GridCell> = CoordMap::new();
        let mut coords: Vec<Coords> = Vec::new();
        let mut i: usize = 0;
        while i < rows.len()
            invariant
                i <= rows.len(),
                rows_within_limit(rows@.take(i as int)),
                cells@ == cells_of_rows(rows@.take(i as int)),
                coords@ == places_of_rows(rows@.take(i as int)),
                cells_consistent(cells@),
                forall|c: Coords| cells@.contains_key(c) <==> coords@.contains(c),
                coords@.no_duplicates(),
            decreases rows.len() - i,
        {
            let row = rows[i];
            let c = Coords { q: row.q, r: row.r };
            if c.q < -COORD_LIMIT || c.q > COORD_LIMIT || c.r < -COORD_LIMIT || c.r > COORD_LIMIT {
                proof {
                    assert(!within_limit(rows@[i as int].coords()));
                }
                return Err(String::from_str("Cell out of range"));
            }
            let ghost before = cells@;
            let ghost listed = coords@;
            if !cells.contains_key(&c) {
                coords.push(c);
            }
            cells.insert(c, row);
            proof {
                assert(rows@.take(i + 1).drop_last() =~= rows@.take(i as int));
                assert(rows@.take(i + 1).last() == rows@[i as int]);
                assert(before.contains_key(c) <==> listed.contains(c));
                assert(coords@ == places_of_rows(rows@.take(i + 1)));
                assert forall|k: int| 0 <= k < i + 1 implies within_limit(
                    #[trigger] rows@.take(i + 1)[k].coords(),
                ) by {
                    if k < i {
                        assert(rows@.take(i as int)[k] == rows@[k]);
                    }
                }
                if !before.contains_key(c) {
                    assert(!listed.contains(c));
                    assert forall|a: int, b: int|
                        0 <= a < coords@.len() && 0 <= b < coords@.len() && a
                            != b implies coords@[a] != coords@[b] by {
                        if a < listed.len() {
                            assert(listed.contains(listed[a]));
                        }
                        if b < listed.len() {
                            assert(listed.contains(listed[b]));
                        }
                    }
                }
                assert forall|x: Coords| cells@.contains_key(x) <==> coords@.contains(x) by {
                    if x == c {
                        if before.contains_key(c) {
                            assert(listed.contains(c));
                            let k = choose|k: int| 0 <= k < listed.len() && listed[k] == c;
                            assert(coords@[k] == c);
                        } else {
                            assert(coords@[coords@.len() - 1] == c);
                        }
                    } else if before.contains_key(x) {
                        assert(listed.contains(x));
                        let k = choose|k: int| 0 <= k < listed.len() && listed[k] == x;
                        assert(coords@[k] == x);
                    } else if coords@.contains(x) {
                        let k = choose|k: int| 0 <= k < coords@.len() && coords@[k] == x;
                        assert(listed[k] == x);
                        assert(listed.contains(x));
                    }
                }
            }
            i = i + 1;
        }
        proof {
            assert(rows@.take(rows.len() as int) =~= rows@);
        }
        let dirs = Dir::get_vec();
        let mut k: usize = 0;
        while k < coords.len()
            invariant
                k <= coords.len(),
                dirs@ == Dir::all(),
                rows_within_limit(rows@),
                cells@ == cells_of_rows(rows@),
                coords@ == places_of_rows(rows@),
                cells_consistent(cells@),
                forall|c: Coords| cells@.contains_key(c) <==> coords@.contains(c),
                coords@.no_duplicates(),
                forall|m: int, d: Dir|
                    0 <= m < k ==> (if cells@.contains_key(#[trigger] coords@[m].step(d, 1)) {
                        cells@[coords@[m]].side(d) == cells@[coords@[m].step(d, 1)].side(
                            d.opposite(),
                        )
                    } else {
                        cells@[coords@[m]].side(d) == EdgeType::Wall
                    }),
            decreases coords.len() - k,
        {
            let c = coords[k];
            assert(coords@.contains(c));
            let cell: GridCell = match cells.get(&c) {
                Some(cell) => *cell,
                None => GridCell::new(0, &c),
            };
            let mut s: usize = 0;
            while s < 6
                invariant
                    s <= 6,
                    k < coords.len(),
                    c == coords@[k as int],
                    dirs@ == Dir::all(),
                    cells@.contains_key(c),
                    cell == cells@[c],
                    rows_within_limit(rows@),
                    cells@ == cells_of_rows(rows@),
                    cells_consistent(cells@),
                    forall|t: int|
                        0 <= t < s ==> (if cells@.contains_key(c.step(#[trigger] dirs@[t], 1)) {
                            cell.side(dirs@[t]) == cells@[c.step(dirs@[t], 1)].side(
                                dirs@[t].opposite(),
                            )
                        } else {
                            cell.side(dirs@[t]) == EdgeType::Wall
                        }),
                decreases 6 - s,
            {
                let d = dirs[s];
                proof {
                    lemma_step_near(c, d, 1);
                }
                let beyond = c.to(&d, 1);
                let agrees: bool = match cells.get(&beyond) {
                    Some(other) => cell.get_side(d) == other.get_side(d.get_opposite()),
                    None => cell.get_side(d) == EdgeType::Wall,
                };
                if !agrees {
                    proof {
                        if cells@.contains_key(c.step(d, 1)) {
                            assert(cells@[c].side(d) != cells@[c.step(d, 1)].side(d.opposite()));
                            assert(!cells_reciprocal(cells@));
                        } else {
                            assert(cells@[c].side(d) != EdgeType::Wall);
                            assert(!cells_closed(cells@));
                        }
                    }
                    return Err(String::from_str("Cells do not make a maze"));
                }
                s = s + 1;
            }
            proof {
                assert forall|m: int, d: Dir| 0 <= m < k + 1 implies (if cells@.contains_key(
                    #[trigger] coords@[m].step(d, 1),
                ) {
                    cells@[coords@[m]].side(d) == cells@[coords@[m].step(d, 1)].side(d.opposite())
                } else {
                    cells@[coords@[m]].side(d) == EdgeType::Wall
                }) by {
                    if m == k {
                        let t: int = match d {
                            Dir::Orient0 => 0,
                            Dir::Orient60 => 1,
                            Dir::Orient120 => 2,
                            Dir::Orient180 => 3,
                            Dir::Orient240 => 4,
                            Dir::Orient300 => 5,
                        };
                        assert(dirs@[t] == d);
                    }
                }
            }
            k = k + 1;
        }
        proof {
            assert forall|c: Coords, d: Dir|
                cells@.contains_key(c) && cells@.contains_key(
                    #[trigger] c.step(d, 1),
                ) implies cells@[c].side(d) == cells@[c.step(d, 1)].side(d.opposite()) by {
                assert(coords@.contains(c));
                let m = choose|m: int| 0 <= m < coords@.len() && coords@[m] == c;
                assert(cells@.contains_key(coords@[m].step(d, 1)));
            }
            assert forall|c: Coords, d: Dir|
                cells@.contains_key(c) && !cells@.contains_key(
                    #[trigger] c.step(d, 1),
                ) implies cells@[c].side(d) == EdgeType::Wall by {
                assert(coords@.contains(c));
                let m = choose|m: int| 0 <= m < coords@.len() && coords@[m] == c;
                assert(!cells@.contains_key(coords@[m].step(d, 1)));
            }
        }
        Ok(
            Grid {
                cells: cells,
                robot_locs: CoordMap::new(),
                robot_strengths: HashMap::new(),
                valuables_locs: CoordMap::new(),
                robot_coords: HashMap::new(),
                cell_coords: coords,
                less_than_guess: Some(4000),
            },
        )
    }

    /// Makes a grid with a new maze of radius `size`. A radius of 0 is
    /// refused, and so is one for which the cells cannot be numbered.
    pub fn new(size: u32) -> (made: Result<Grid, String>)
        ensures
            match made {
                Ok(grid) => {
                    &&& 1 <= size <= MAX_GRID_SIZE
                    &&& grid.wf()
                    &&& forall|c: Coords| grid.cells@.contains_key(c) <==> in_disc(c, size as int)
                    &&& grid.cell_list().len() == 1 + 3 * size * (size + 1)
                    &&& forall|i: int|
                        0 <= i < grid.cell_list().len() ==> (#[trigger] grid.cells@[grid.cell_list()[i]]).id
                            == i
                    &&& forall|c: Coords|
                        grid.cells@.contains_key(c) ==> (#[trigger] grid.cells@[c]).id
                            == cell_number(c)
                    &&& maze_carved(size as int, grid.cells@, grid.cell_list())
                    &&& room_count(size as int) > 0 ==> exists|c: Coords|
                        grid.cells@.contains_key(c) && (#[trigger] grid.cells@[c]).partly_open()
                    &&& grid.robot_locs@ == Map::<Coords, i64>::empty()
                    &&& grid.robot_strengths@ == Map::<i64, i32>::empty()
                    &&& grid.valuables_locs@ == Map::<Coords, i64>::empty()
                    &&& grid.guess() == Some(5000i32)
                },
                Err(reason) => (size == 0 || size > MAX_GRID_SIZE) && reason@
                    == "Improper grid size"@,
            },
    {
        if size == 0 || size > MAX_GRID_SIZE as u32 {
            return Err(String::from_str("Improper grid size"));
        }
        let (cells, coords) = generate_cells(size as i32);

        Ok(
            Grid {
                cells: cells,
                robot_locs: CoordMap::new(),
                robot_strengths: HashMap::new(),
                valuables_locs: CoordMap::new(),
                robot_coords: HashMap::new(),
                cell_coords: coords,
                less_than_guess: Some(5000),
            },
        )
    }

    /// Whether a robot or a valuable could be put down at `c`.
    pub fn is_vacant_open_cell(&self, c: &Coords) -> (free: bool)
        ensures
            free == self.vacant_open(*c),
    {
        match self.cells.get(c) {
            Some(cell) => cell.is_open() && !self.robot_locs.contains_key(c)
                && !self.valuables_locs.contains_key(c),
            None => false,
        }
    }

    /// Tries the position `(q, r)` as a place to put something down. Where a
    /// cell lies there, the position is the answer if the cell is free and
    /// partly open. Where none lies there, the bound for later tries shrinks
    /// to the larger of the two coordinates.
    pub fn sample_cell(&mut self, q: i32, r: i32) -> (found: Option<Coords>)
        requires
            old(self).wf(),
        ensures
            final(self).wf(),
            old(self).same_but_guess(final(self)),
            old(self).cells@.contains_key(Coords { q, r }) ==> final(self).guess() == old(self).guess() && found == (if old(self).vacant_open(Coords { q, r }) {
                Some(Coords { q, r })
            } else {
                None
            }),
            !old(self).cells@.contains_key(Coords { q, r }) ==> found is None && final(self).guess() == Some(shrunk_guess(q as int, r as int) as i32),
    {
        let test_coords = Coords { q, r };
        if self.cells.contains_key(&test_coords) {
            if self.is_vacant_open_cell(&test_coords) {
                return Some(test_coords);
            }
        } else {
            let aq: i64 = if q < 0 { -(q as i64) } else { q as i64 };
            let ar: i64 = if r < 0 { -(r as i64) } else { r as i64 };
            let m: i64 = if aq > ar { aq } else { ar };
            let bound: i32 = if m > COORD_LIMIT as i64 { COORD_LIMIT } else { m as i32 };
            self.less_than_guess = Some(bound);
        }
        None
    }

    /// The positions of the cells at which something could be put down, in
    /// the order of the cells.
    pub fn vacant_open_cells(&self) -> (free: Vec<Coords>)
        ensures
            free@ == self.cell_list().filter(self.is_vacant_open()),
    {
        let mut free: Vec<Coords> = Vec::new();
        let mut i: usize = 0;
        proof {
            assert(self.cell_coords@.take(0).filter(self.is_vacant_open()) =~= Seq::<
                Coords,
            >::empty());
        }
        while i < self.cell_coords.len()
            invariant
                i <= self.cell_coords.len(),
                free@ == self.cell_coords@.take(i as int).filter(self.is_vacant_open()),
            decreases self.cell_coords.len() - i,
        {
            let c = self.cell_coords[i];
            proof {
                self.cell_coords@.lemma_take_succ_push(i as int);
                self.cell_coords@.take(i as int).lemma_filter_push(c, self.is_vacant_open());
            }
            if self.is_vacant_open_cell(&c) {
                free.push(c);
            }
            i = i + 1;
        }
        proof {
            self.cell_coords@.lemma_take_len();
        }
        free
    }

    /// Picks at random a cell at which a robot or a valuable can be put
    /// down: one that is partly open and on which nothing stands. Positions
    /// are tried at random within the bound that earlier tries have left;
    /// when none of them does, one of the free cells is picked directly.
    /// There is no answer only where no cell is free.
    pub fn get_random_open_cell(&mut self) -> (found: Option<Coords>)
        requires
            old(self).wf(),
        ensures
            final(self).wf(),
            old(self).same_but_guess(final(self)),
            match found {
                Some(c) => old(self).vacant_open(c),
                None => forall|c: Coords| !old(self).vacant_open(c),
            },
    {
        let mut tries: u32 = 0;
        while tries < SAMPLE_ATTEMPTS
            invariant
                self.wf(),
                old(self).same_but_guess(self),
            decreases SAMPLE_ATTEMPTS - tries,
        {
            let max_range: i32 = match self.less_than_guess {
                Some(g) => g,
                None => 5000,
            };
            let q: i32 = random_in_range(-max_range - 1, max_range + 1);
            let r: i32 = random_in_range(-max_range - 1, max_range + 1);
            if let Some(c) = self.sample_cell(q, r) {
                return Some(c);
            }
            tries = tries + 1;
        }
        let free = self.vacant_open_cells();
        let found = pick_one(&free);
        proof {
            match found {
                Some(c) => {
                    let k = choose|k: int| 0 <= k < free@.len() && free@[k] == c;
                    self.cell_coords@.lemma_filter_pred(self.is_vacant_open(), k);
                },
                None => {
                    assert forall|c: Coords| !old(self).vacant_open(c) by {
                        if old(self).vacant_open(c) {
                            assert(self.cell_coords@.contains(c));
                            let k = choose|k: int|
                                0 <= k < self.cell_coords@.len() && self.cell_coords@[k] == c;
                            self.cell_coords@.lemma_filter_contains(self.is_vacant_open(), k);
                        }
                    }
                },
            }
        }
        found
    }

    /// Appends the cell at `c`, if there is one.
    fn push_present(&self, found: &mut Vec<GridCell>, c: Coords, swept: Ghost<Seq<Coords>>)
        requires
            old(found)@ == present_cells(self.cells@, swept@),
        ensures
            final(found)@ == present_cells(self.cells@, swept@.push(c)),
    {
        proof {
            lemma_present_cells_push(self.cells@, swept@, c);
        }
        if let Some(cell) = self.cells.get(&c) {
            found.push(*cell);
        }
    }

    /// Given a starting point, direction, field of view and distance, get the cells in this range
    pub fn get_cells(&self, start_coords: &Coords, dir: Dir, fov: i32, distance: i32) -> (found:
        Vec<GridCell>)
        requires
            within_limit(*start_coords),
            distance <= COORD_LIMIT,
        ensures
            found@ == present_cells(
                self.cells@,
                sweep(*start_coords, dir, fov as int, distance as int),
            ),
    {
        let mut found: Vec<GridCell> = Vec::new();
        let start: Coords = *start_coords;
        let half: i32 = if fov >= 0 {
            fov / 2
        } else {
            (-((-(fov as i64)) / 2)) as i32
        };
        let arm: Dir = dir.left(half);
        let arms: i32 = if fov <= 0 {
            0
        } else if fov > 300 {
            6
        } else {
            (fov + 59) / 60
        };
        let ghost mut swept: Seq<Coords> = Seq::empty();
        let mut r: i32 = 1;
        while r <= distance
            invariant
                within_limit(start),
                distance <= COORD_LIMIT,
                1 <= r,
                r <= distance + 1 || distance < 1,
                distance < 1 ==> r == 1,
                0 <= arms <= 6,
                swept == sweep_rings(start, arm, arms as int, r - 1),
                found@ == present_cells(self.cells@, swept),
            decreases distance + 1 - r,
        {
            let ghost before_ring = swept;
            proof {
                lemma_step_near(start, arm, r as int);
                assert(arm.turned(0) == arm);
            }
            let mut coord: Coords = start.to(&arm, r);
            let mut scan_dir: Dir = arm.right(60);
            self.push_present(&mut found, coord, Ghost(swept));
            proof {
                swept = swept.push(coord);
                assert(swept =~= before_ring + ring_arc(start, arm, r as int, 0));
                assert(coord == ring_cell(start, arm, r as int, 0, 0));
            }
            let mut i: i32 = 0;
            while i < arms
                invariant
                    within_limit(start),
                    1 <= r <= COORD_LIMIT,
                    0 <= i <= arms <= 6,
                    scan_dir == arm.turned(i + 1),
                    i < 6 ==> coord == ring_cell(start, arm, r as int, i as int, 0),
                    swept == before_ring + ring_arc(start, arm, r as int, i as int),
                    found@ == present_cells(self.cells@, swept),
                decreases arms - i,
            {
                scan_dir = scan_dir.right(60);
                let total: i32 = if i == 5 {
                    r - 1
                } else {
                    r
                };
                let ghost before_segment = swept;
                let mut j: i32 = 0;
                while j < total
                    invariant
                        within_limit(start),
                        1 <= r <= COORD_LIMIT,
                        0 <= i < 6,
                        0 <= j <= total <= r,
                        total == segment_len(r as int, i as int),
                        scan_dir == arm.turned(i + 2),
                        coord == ring_cell(start, arm, r as int, i as int, j as int),
                        swept == before_segment + Seq::new(
                            j as nat,
                            |k: int| ring_cell(start, arm, r as int, i as int, k + 1),
                        ),
                        found@ == present_cells(self.cells@, swept),
                    decreases total - j,
                {
                    proof {
                        lemma_ring_cell_near(start, arm, r as int, i as int, j as int);
                    }
                    coord = coord.to(&scan_dir, 1);
                    self.push_present(&mut found, coord, Ghost(swept));
                    proof {
                        swept = swept.push(coord);
                        assert(swept =~= before_segment + Seq::new(
                            (j + 1) as nat,
                            |k: int| ring_cell(start, arm, r as int, i as int, k + 1),
                        ));
                    }
                    j = j + 1;
                }
                proof {
                    assert(swept == before_segment + ring_segment(start, arm, r as int, i as int));
                    assert(swept =~= before_ring + ring_arc(start, arm, r as int, i + 1));
                    if i < 5 {
                        lemma_ring_corner(start, arm, r as int, i as int);
                    }
                }
                i = i + 1;
            }
            proof {
                assert(swept =~= sweep_rings(start, arm, arms as int, r as int));
            }
            r = r + 1;
        }
        proof {
            if distance < 1 {
                assert(swept =~= sweep_rings(start, arm, arms as int, distance as int));
            }
        }
        // add our current cell
        self.push_present(&mut found, start, Ghost(swept));
        found
    }

    /// An open side of a cell of the grid leads to a cell of the grid.
    pub proof fn lemma_perimeter_closed_at(&self, a: Coords, d: Dir)
        requires
            self.wf(),
            self.cells@.contains_key(a),
            self.cells@[a].side(d) != EdgeType::Wall,
        ensures
            self.cells@.contains_key(a.step(d, 1)),
            within_limit(a.step(d, 1)),
    {
    }

    /// In a grid whose cells are those within `size` steps of the origin,
    /// every edge of a cell that leads out of that disc is a wall: so are,
    /// of every cell on the outer ring, the edges that point outwards.
    pub proof fn lemma_outer_ring_walled(&self, size: int, a: Coords, d: Dir)
        requires
            self.wf(),
            forall|c: Coords| self.cells@.contains_key(c) <==> in_disc(c, size),
            in_disc(a, size),
            !in_disc(a.step(d, 1), size),
        ensures
            self.cells@[a].side(d) == EdgeType::Wall,
    {
    }

    /// Puts the robot `id` on `coords` with the given weapon strength. A
    /// robot that stood there leaves the index, and so does the place where
    /// `id` stood before.
    pub fn place_robot(&mut self, id: i64, coords: Coords, strength: i32)
        requires
            old(self).wf(),
        ensures
            final(self).wf(),
            final(self).cells@ == old(self).cells@,
            final(self).valuables_locs@ == old(self).valuables_locs@,
            final(self).cell_list() == old(self).cell_list(),
            final(self).guess() == old(self).guess(),
            final(self).robot_locs@ == (match old(self).robot_position(id) {
                Some(p) => old(self).robot_locs@.remove(p),
                None => old(self).robot_locs@,
            }).insert(coords, id),
            final(self).robot_strengths@ == (if old(self).robot_locs@.contains_key(coords) {
                old(self).robot_strengths@.remove(old(self).robot_locs@[coords])
            } else {
                old(self).robot_strengths@
            }).insert(id, strength),
            final(self).robot_position(id) == Some(coords),
    {
        let occupant: Option<i64> = match self.robot_locs.get(&coords) {
            Some(other) => Some(*other),
            None => None,
        };
        if let Some(other) = occupant {
            self.robot_strengths.remove(&other);
            self.robot_coords.remove(&other);
            self.robot_locs.remove(&coords);
        }
        let before: Option<Coords> = match self.robot_coords.get(&id) {
            Some(p) => Some(*p),
            None => None,
        };
        if let Some(p) = before {
            self.robot_locs.remove(&p);
        }
        self.robot_locs.insert(coords, id);
        self.robot_coords.insert(id, coords);
        self.robot_strengths.insert(id, strength);
        proof {
            assert(final(self).robot_locs@ =~= (match old(self).robot_position(id) {
                Some(p) => old(self).robot_locs@.remove(p),
                None => old(self).robot_locs@,
            }).insert(coords, id));
            assert(final(self).robot_strengths@ =~= (if old(self).robot_locs@.contains_key(coords) {
                old(self).robot_strengths@.remove(old(self).robot_locs@[coords])
            } else {
                old(self).robot_strengths@
            }).insert(id, strength));
            assert(final(self).robot_strengths@.dom() =~= final(self).robot_coords@.dom());
        }
    }

    /// Change the robot location: the robot `id`, where it stands on
    /// `old_coords`, moves to `new_coords`, and a robot that stood there
    /// leaves the index. Where `id` does not stand on `old_coords` nothing
    /// changes.
    pub fn update_robot_loc(&mut self, id: i64, old_coords: Coords, new_coords: Coords)
        requires
            old(self).wf(),
        ensures
            final(self).wf(),
            final(self).cells@ == old(self).cells@,
            final(self).valuables_locs@ == old(self).valuables_locs@,
            final(self).cell_list() == old(self).cell_list(),
            final(self).guess() == old(self).guess(),
            old(self).robot_position(id) == Some(old_coords) ==> {
                &&& final(self).robot_locs@ == old(self).robot_locs@.remove(old_coords).insert(
                    new_coords,
                    id,
                )
                &&& final(self).robot_position(id) == Some(new_coords)
                &&& final(self).robot_strengths@ == (if old(self).robot_locs@.contains_key(
                    new_coords,
                ) {
                    old(self).robot_strengths@.remove(old(self).robot_locs@[new_coords])
                } else {
                    old(self).robot_strengths@
                }).insert(id, old(self).robot_strengths@[id])
                &&& !old(self).robot_locs@.contains_key(new_coords) ==> final(self).robot_strengths@ == old(self).robot_strengths@
            },
            old(self).robot_position(id) != Some(old_coords) ==> {
                &&& final(self).robot_locs@ == old(self).robot_locs@
                &&& final(self).robot_strengths@ == old(self).robot_strengths@
                &&& final(self).robot_position(id) == old(self).robot_position(id)
            },
    {
        let here: bool = match self.robot_coords.get(&id) {
            Some(p) => p.q == old_coords.q && p.r == old_coords.r,
            None => false,
        };
        if here {
            let strength: i32 = match self.robot_strengths.get(&id) {
                Some(s) => *s,
                None => 0,
            };
            self.place_robot(id, new_coords, strength);
            proof {
                assert(final(self).robot_strengths@ =~= (if old(self).robot_locs@.contains_key(
                    new_coords,
                ) {
                    old(self).robot_strengths@.remove(old(self).robot_locs@[new_coords])
                } else {
                    old(self).robot_strengths@
                }).insert(id, strength));
                if !old(self).robot_locs@.contains_key(new_coords) {
                    assert(old(self).robot_strengths@.dom().contains(id));
                    assert(final(self).robot_strengths@ =~= old(self).robot_strengths@);
                }
            }
        }
    }

    /// Get a robot id based on a location
    pub fn get_robot_id_by_loc(&self, coords: &Coords) -> (id: Option<&i64>)
        ensures
            match id {
                Some(id) => self.robot_locs@.contains_key(*coords) && *id == self.robot_locs@[*coords],
                None => !self.robot_locs@.contains_key(*coords),
            },
    {
        self.robot_locs.get(coords)
    }

    /// Get the coords of a robot by id
    pub fn get_coords_by_robot_id(&self, id: &i64) -> (coords: Option<&Coords>)
        ensures
            match coords {
                Some(c) => self.robot_position(*id) == Some(*c),
                None => self.robot_position(*id) is None,
            },
            self.wf() ==> match coords {
                Some(c) => self.robot_locs@.contains_key(*c) && self.robot_locs@[*c] == *id,
                None => forall|c: Coords|
                    self.robot_locs@.contains_key(c) ==> self.robot_locs@[c] != *id,
            },
    {
        self.robot_coords.get(id)
    }

    /// Add a robot to the grid data: the robot stands where its data say,
    /// with the strength of its weapon. A robot that stood there leaves the
    /// index, and so does the place where the robot stood before.
    pub fn add_robot(&mut self, robot: &Robot)
        requires
            old(self).wf(),
        ensures
            final(self).wf(),
            final(self).cells@ == old(self).cells@,
            final(self).valuables_locs@ == old(self).valuables_locs@,
            final(self).cell_list() == old(self).cell_list(),
            final(self).guess() == old(self).guess(),
            final(self).robot_locs@ == (match old(self).robot_position(robot.data.id) {
                Some(p) => old(self).robot_locs@.remove(p),
                None => old(self).robot_locs@,
            }).insert(robot.coords(), robot.data.id),
            final(self).robot_strengths@ == (if old(self).robot_locs@.contains_key(robot.coords()) {
                old(self).robot_strengths@.remove(old(self).robot_locs@[robot.coords()])
            } else {
                old(self).robot_strengths@
            }).insert(robot.data.id, weapon_max_damage(robot.modules.m_weapons@) as i32),
            final(self).robot_position(robot.data.id) == Some(robot.coords()),
    {
        let coords = Coords { q: robot.data.q, r: robot.data.r };
        let id = robot.data.id;
        let weapon_strength = WeaponModule::get_max_damage(robot.modules.m_weapons.as_str());

        self.place_robot(id, coords, weapon_strength);
    }

    /// Remove a robot
    pub fn remove_robot_by_loc(&mut self, coords: &Coords)
        requires
            old(self).wf(),
        ensures
            final(self).wf(),
            final(self).cells@ == old(self).cells@,
            final(self).valuables_locs@ == old(self).valuables_locs@,
            final(self).cell_list() == old(self).cell_list(),
            final(self).guess() == old(self).guess(),
            final(self).robot_locs@ == old(self).robot_locs@.remove(*coords),
            final(self).robot_strengths@ == (if old(self).robot_locs@.contains_key(*coords) {
                old(self).robot_strengths@.remove(old(self).robot_locs@[*coords])
            } else {
                old(self).robot_strengths@
            }),
    {
        let occupant: Option<i64> = match self.robot_locs.get(coords) {
            Some(other) => Some(*other),
            None => None,
        };
        if let Some(other) = occupant {
            self.robot_strengths.remove(&other);
            self.robot_coords.remove(&other);
        }
        self.robot_locs.remove(coords);
        proof {
            assert(final(self).robot_strengths@.dom() =~= final(self).robot_coords@.dom());
            assert(final(self).robot_locs@ =~= old(self).robot_locs@.remove(*coords));
        }
    }

    /// Remove a robot by id
    pub fn remove_robot_by_id(&mut self, id: &i64)
        requires
            old(self).wf(),
        ensures
            final(self).wf(),
            final(self).cells@ == old(self).cells@,
            final(self).valuables_locs@ == old(self).valuables_locs@,
            final(self).cell_list() == old(self).cell_list(),
            final(self).guess() == old(self).guess(),
            final(self).robot_position(*id) is None,
            final(self).robot_strengths@ == old(self).robot_strengths@.remove(*id),
            final(self).robot_locs@ == (match old(self).robot_position(*id) {
                Some(p) => old(self).robot_locs@.remove(p),
                None => old(self).robot_locs@,
            }),
    {
        let place: Option<Coords> = match self.robot_coords.get(id) {
            Some(p) => Some(*p),
            None => None,
        };
        match place {
            Some(p) => {
                self.remove_robot_by_loc(&p);
            },
            None => {
                proof {
                    assert(!self.robot_strengths@.dom().contains(*id));
                    assert(self.robot_strengths@.remove(*id) =~= self.robot_strengths@);
                }
            },
        }
    }

    /// Get a valuable id based on a location
    pub fn get_valuable_id_by_loc(&self, coords: &Coords) -> (id: Option<&i64>)
        ensures
            match id {
                Some(id) => self.valuables_locs@.contains_key(*coords) && *id
                    == self.valuables_locs@[*coords],
                None => !self.valuables_locs@.contains_key(*coords),
            },
    {
        self.valuables_locs.get(coords)
    }

    /// Records that the valuable `id` lies at `coords`.
    pub fn add_valuable(&mut self, coords: Coords, id: i64)
        requires
            old(self).wf(),
        ensures
            final(self).wf(),
            final(self).cells@ == old(self).cells@,
            final(self).robot_locs@ == old(self).robot_locs@,
            final(self).robot_strengths@ == old(self).robot_strengths@,
            final(self).cell_list() == old(self).cell_list(),
            final(self).guess() == old(self).guess(),
            forall|r: i64| final(self).robot_position(r) == old(self).robot_position(r),
            final(self).valuables_locs@ == old(self).valuables_locs@.insert(coords, id),
    {
        self.valuables_locs.insert(coords, id);
    }

    /// remove a valuable given a location
    pub fn remove_valuable_by_loc(&mut self, coords: &Coords)
        requires
            old(self).wf(),
        ensures
            final(self).wf(),
            final(self).cells@ == old(self).cells@,
            final(self).robot_locs@ == old(self).robot_locs@,
            final(self).robot_strengths@ == old(self).robot_strengths@,
            final(self).cell_list() == old(self).cell_list(),
            final(self).guess() == old(self).guess(),
            forall|r: i64| final(self).robot_position(r) == old(self).robot_position(r),
            final(self).valuables_locs@ == old(self).valuables_locs@.remove(*coords),
    {
        self.valuables_locs.remove(coords);
    }
}

} // verus!
