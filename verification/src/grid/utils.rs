//! The maze generator: a disc of walled cells, into which rooms and
//! corridors are carved.

pub mod traversal;

use vstd::prelude::*;

use crate::grid::coord_map::CoordMap;
use crate::grid::coords::{lemma_step_back, lemma_turn_tables, Coords, Dir};
use crate::grid::edge::EdgeType;
use crate::grid::grid::{
    cells_closed,
    cells_consistent,
    cells_reciprocal,
    cells_wf,
    lemma_step_near,
    within_limit,
    GridCell,
};
use crate::utils::{pick_one, random_in_range};

verus! {

/// The largest radius of a maze: the largest for which the numbers of the
/// cells, `1 + 3 * size * (size + 1)` of them, fit in `i32`.
pub const MAX_GRID_SIZE: i32 = 26754;

/// How many steps a corridor may take before the carving of it stops.
pub const MAX_CORRIDOR_STEPS: u32 = 1000000;

/// The cells after the edge on side `d` of the cell at `c` is set to `e`,
/// seen from both sides: the neighbour behind that edge, if there is one,
/// gets the same edge on its opposite side.
pub open spec fn with_edge(cells: Map<Coords, GridCell>, c: Coords, d: Dir, e: EdgeType) -> Map<
    Coords,
    GridCell,
> {
    let one = cells.insert(c, cells[c].with_side(d, e));
    let n = c.step(d, 1);
    if one.contains_key(n) {
        one.insert(n, one[n].with_side(d.opposite(), e))
    } else {
        one
    }
}

/// What holds of the cells while a maze is carved: each cell is filed under
/// its position, and neighbours agree on the edge between them.
pub open spec fn carving_wf(cells: Map<Coords, GridCell>) -> bool {
    cells_consistent(cells) && cells_reciprocal(cells)
}

/// Whether `after` holds a cell wherever `before` does, and that cell under
/// the same id.
pub open spec fn same_cells(before: Map<Coords, GridCell>, after: Map<Coords, GridCell>) -> bool {
    &&& after.dom() == before.dom()
    &&& forall|x: Coords| #[trigger] before.contains_key(x) ==> after[x].id == before[x].id
}

/// Setting an edge from both sides keeps the cells where they are and keeps
/// neighbours in agreement.
pub proof fn lemma_with_edge(cells: Map<Coords, GridCell>, c: Coords, d: Dir, e: EdgeType)
    requires
        carving_wf(cells),
        cells.contains_key(c),
    ensures
        carving_wf(with_edge(cells, c, d, e)),
        with_edge(cells, c, d, e).dom() == cells.dom(),
        with_edge(cells, c, d, e)[c].side(d) == e,
        forall|x: Coords| #[trigger]
            cells.contains_key(x) ==> with_edge(cells, c, d, e)[x].id == cells[x].id,
        forall|x: Coords, y: Dir|
            cells.contains_key(x) && !(x == c && y == d) && !(x == c.step(d, 1) && y
                == d.opposite()) ==> (#[trigger] with_edge(cells, c, d, e)[x].side(y))
                == cells[x].side(y),
{
    let after = with_edge(cells, c, d, e);
    let n = c.step(d, 1);
    lemma_step_near(c, d, 1);
    assert(n != c);
    assert(after.dom() =~= cells.dom());
    assert forall|x: Coords, y: Dir|
        after.contains_key(x) && after.contains_key(#[trigger] x.step(y, 1)) implies after[x].side(
        y,
    ) == after[x.step(y, 1)].side(y.opposite()) by {
        let z = x.step(y, 1);
        lemma_step_near(x, y, 1);
        assert(cells.contains_key(x) && cells.contains_key(z));
        assert(cells[x].side(y) == cells[z].side(y.opposite()));
        if x == c && y == d {
            assert(z == n);
        } else if x == n && y == d.opposite() {
            assert(z == c);
        } else {
            assert(!(z == c && y.opposite() == d));
            assert(!(z == n && y.opposite() == d.opposite()));
        }
    }
}

/// Create a wall for a cell and it's neighbor
fn create_edge_between_cells(
    cells: &mut CoordMap<GridCell>,
    coords: &Coords,
    dir: &Dir,
    edge_type: EdgeType,
)
    requires
        carving_wf(old(cells)@),
        old(cells)@.contains_key(*coords),
    ensures
        final(cells)@ == with_edge(old(cells)@, *coords, *dir, edge_type),
        carving_wf(final(cells)@),
        same_cells(old(cells)@, final(cells)@),
{
    proof {
        lemma_with_edge(cells@, *coords, *dir, edge_type);
        lemma_step_near(*coords, *dir, 1);
    }
    let mut cell: GridCell = match cells.get(coords) {
        Some(cell) => *cell,
        None => GridCell::new(0, coords),
    };
    cell.change_side(dir, edge_type);
    cells.insert(*coords, cell);

    let neighbor_coords = coords.to(dir, 1);
    let neighbor: Option<GridCell> = match cells.get(&neighbor_coords) {
        Some(cell) => Some(*cell),
        None => None,
    };
    if let Some(mut neighbor_cell) = neighbor {
        neighbor_cell.change_side(&dir.get_opposite(), edge_type);
        cells.insert(neighbor_coords, neighbor_cell);
    }
}

/// The sides of a cell on a ring that point away from the ring's centre,
/// for a cell on the side of the ring that runs in direction `dir`; `last`
/// says that the cell is the corner at the end of that side.
pub open spec fn outward_sides(dir: Dir, last: bool) -> Seq<Dir> {
    if last {
        seq![dir, dir.spec_left(120), dir.spec_left(60)]
    } else {
        seq![dir.spec_left(120), dir.spec_left(60)]
    }
}

/// The cells after each of the sides `sides` of the cell at `c` is set to
/// `e`, one after the other.
pub open spec fn with_edges(
    cells: Map<Coords, GridCell>,
    c: Coords,
    sides: Seq<Dir>,
    e: EdgeType,
) -> Map<Coords, GridCell>
    decreases sides.len(),
{
    if sides.len() == 0 {
        cells
    } else {
        with_edge(with_edges(cells, c, sides.drop_last(), e), c, sides.last(), e)
    }
}

/// Setting several edges of a cell keeps the cells where they are and keeps
/// neighbours in agreement.
pub proof fn lemma_with_edges(cells: Map<Coords, GridCell>, c: Coords, sides: Seq<Dir>, e: EdgeType)
    requires
        carving_wf(cells),
        cells.contains_key(c),
    ensures
        carving_wf(with_edges(cells, c, sides, e)),
        same_cells(cells, with_edges(cells, c, sides, e)),
    decreases sides.len(),
{
    if sides.len() > 0 {
        lemma_with_edges(cells, c, sides.drop_last(), e);
        lemma_with_edge(with_edges(cells, c, sides.drop_last(), e), c, sides.last(), e);
    }
}

/// Sets each of the given sides of a cell, and the other side of each edge.
fn set_edges(cells: &mut CoordMap<GridCell>, coords: &Coords, sides: &Vec<Dir>, edge_type: EdgeType)
    requires
        carving_wf(old(cells)@),
        old(cells)@.contains_key(*coords),
    ensures
        final(cells)@ == with_edges(old(cells)@, *coords, sides@, edge_type),
        carving_wf(final(cells)@),
        same_cells(old(cells)@, final(cells)@),
{
    let mut i: usize = 0;
    while i < sides.len()
        invariant
            i <= sides.len(),
            carving_wf(cells@),
            same_cells(old(cells)@, cells@),
            cells@.contains_key(*coords),
            cells@ == with_edges(old(cells)@, *coords, sides@.take(i as int), edge_type),
        decreases sides.len() - i,
    {
        create_edge_between_cells(cells, coords, &sides[i], edge_type);
        proof {
            assert(sides@.take(i + 1).drop_last() =~= sides@.take(i as int));
        }
        i = i + 1;
    }
    proof {
        assert(sides@.take(sides.len() as int) =~= sides@);
    }
}

/// Walls up the sides of a cell that point out of a ring.
fn enforce_perimeter_wall(cells: &mut CoordMap<GridCell>, coords: &Coords, dir: &Dir, last: bool)
    requires
        carving_wf(old(cells)@),
        old(cells)@.contains_key(*coords),
    ensures
        final(cells)@ == with_edges(
            old(cells)@,
            *coords,
            outward_sides(*dir, last),
            EdgeType::Wall,
        ),
        carving_wf(final(cells)@),
        same_cells(old(cells)@, final(cells)@),
{
    let mut sides: Vec<Dir> = Vec::new();
    if last {
        sides.push(*dir);
    }
    sides.push(dir.left(120));
    sides.push(dir.left(60));
    proof {
        assert(sides@ =~= outward_sides(*dir, last));
    }
    set_edges(cells, coords, &sides, EdgeType::Wall);
}

/// Open up all the cell walls
fn open_cell(cells: &mut CoordMap<GridCell>, coords: &Coords)
    requires
        carving_wf(old(cells)@),
        old(cells)@.contains_key(*coords),
    ensures
        final(cells)@ == with_edges(old(cells)@, *coords, Dir::all(), EdgeType::Open),
        carving_wf(final(cells)@),
        same_cells(old(cells)@, final(cells)@),
{
    let sides = Dir::get_vec();
    set_edges(cells, coords, &sides, EdgeType::Open);
}

/// Make a room: every cell within `size` steps of `root_coords` has all its
/// edges opened, and the cells of the outermost ring then get walls on the
/// sides that point out of the room. A room of radius 0 is one open cell.
fn make_room(cells: &mut CoordMap<GridCell>, root_coords: &Coords, size: i32)
    requires
        carving_wf(old(cells)@),
        old(cells)@.contains_key(*root_coords),
        0 <= size <= MAX_GRID_SIZE,
    ensures
        final(cells)@ == with_room(old(cells)@, *root_coords, size as int),
        carving_wf(final(cells)@),
        same_cells(old(cells)@, final(cells)@),
{
    open_cell(cells, root_coords);
    proof {
        lemma_state_start(old(cells)@, *root_coords, size as int);
    }

    let dirs = Dir::get_vec();
    let mut radius: i32 = 1;
    while radius <= size
        invariant
            1 <= radius <= size + 1,
            size <= MAX_GRID_SIZE,
            dirs@ == Dir::all(),
            within_limit(*root_coords),
            carving_wf(cells@),
            same_cells(old(cells)@, cells@),
            room_state(old(cells)@, cells@, *root_coords, size as int, radius as int, 0, 0),
        decreases size + 1 - radius,
    {
        proof {
            lemma_step_near(*root_coords, Dir::Orient240, radius as int);
        }
        // we start with the bottom left direction at radius distance
        let mut coords = root_coords.to(&Dir::Orient240, radius);
        let mut side: usize = 0;
        while side < 6
            invariant
                side <= 6,
                1 <= radius <= size <= MAX_GRID_SIZE,
                dirs@ == Dir::all(),
                within_limit(*root_coords),
                root_coords.q - radius - side * radius <= coords.q <= root_coords.q + radius + side
                    * radius,
                root_coords.r - radius - side * radius <= coords.r <= root_coords.r + radius + side
                    * radius,
                carving_wf(cells@),
                same_cells(old(cells)@, cells@),
                side < 6 ==> coords == room_place(*root_coords, radius as int, side as int, 0),
                room_state(
                    old(cells)@,
                    cells@,
                    *root_coords,
                    size as int,
                    radius as int,
                    side as int,
                    0,
                ),
            decreases 6 - side,
        {
            let dir = dirs[side];
            let mut step: i32 = 0;
            while step < radius
                invariant
                    side < 6,
                    0 <= step <= radius,
                    1 <= radius <= size <= MAX_GRID_SIZE,
                    dir == Dir::all()[side as int],
                    within_limit(*root_coords),
                    root_coords.q - radius - side * radius - step <= coords.q <= root_coords.q
                        + radius + side * radius + step,
                    root_coords.r - radius - side * radius - step <= coords.r <= root_coords.r
                        + radius + side * radius + step,
                    carving_wf(cells@),
                    same_cells(old(cells)@, cells@),
                    coords == room_place(*root_coords, radius as int, side as int, step as int),
                    room_state(
                        old(cells)@,
                        cells@,
                        *root_coords,
                        size as int,
                        radius as int,
                        side as int,
                        step as int,
                    ),
                decreases radius - step,
            {
                proof {
                    assert(side * radius <= 5 * radius) by (nonlinear_arith)
                        requires
                            side < 6,
                            radius >= 1,
                    ;
                }
                let ghost before = cells@;
                coords = coords.to(&dir, 1);
                assert(coords == room_place(
                    *root_coords,
                    radius as int,
                    side as int,
                    step + 1,
                ));
                if cells.contains_key(&coords) {
                    open_cell(cells, &coords);
                    if radius == size {
                        enforce_perimeter_wall(cells, &coords, &dir, step == radius - 1);
                    }
                }
                assert(cells@ == room_visit(
                    before,
                    coords,
                    dir,
                    radius == size,
                    step + 1 == radius,
                ));
                proof {
                    lemma_state_visit(
                        old(cells)@,
                        before,
                        *root_coords,
                        size as int,
                        radius as int,
                        side as int,
                        step as int,
                    );
                }
                step = step + 1;
            }
            proof {
                assert((side + 1) * radius == side * radius + radius) by (nonlinear_arith);
                assert(side + 1 < 6 ==> coords == room_place(
                    *root_coords,
                    radius as int,
                    side + 1,
                    0,
                ));
                lemma_state_next_side(
                    old(cells)@,
                    cells@,
                    *root_coords,
                    size as int,
                    radius as int,
                    side as int,
                );
            }
            side = side + 1;
        }
        proof {
            lemma_state_next_ring(old(cells)@, cells@, *root_coords, size as int, radius as int);
        }
        radius = radius + 1;
    }
    proof {
        lemma_state_done(old(cells)@, cells@, *root_coords, size as int);
    }
}

/// Carves the rooms: half as many as the maze's radius, each round a cell
/// picked at random, with a radius picked at random below half the maze's.
fn add_rooms(cells: &mut CoordMap<GridCell>, coords: &Vec<Coords>, size: i32)
    requires
        carving_wf(old(cells)@),
        forall|i: int| 0 <= i < coords@.len() ==> old(cells)@.contains_key(#[trigger] coords@[i]),
        0 <= size <= MAX_GRID_SIZE,
    ensures
        rooms_carved(old(cells)@, final(cells)@, coords@, size as int),
        carving_wf(final(cells)@),
        same_cells(old(cells)@, final(cells)@),
{
    proof {
        reveal(rooms_carved);
    }
    let max_size: i32 = size / 2;
    let num_rooms: i32 = size / 2;
    let ghost mut rooms: Seq<(Coords, int)> = Seq::empty();
    if max_size <= 1 {
        assert(cells@ == with_rooms(old(cells)@, rooms));
        return ;
    }
    let mut n: i32 = 0;
    while n < num_rooms
        invariant
            0 <= n <= num_rooms,
            num_rooms == size / 2,
            max_size == size / 2,
            1 < max_size <= MAX_GRID_SIZE,
            carving_wf(cells@),
            same_cells(old(cells)@, cells@),
            forall|i: int| 0 <= i < coords@.len() ==> cells@.contains_key(#[trigger] coords@[i]),
            rooms.len() == (if coords@.len() == 0 {
                0
            } else {
                n as int
            }),
            forall|i: int|
                0 <= i < rooms.len() ==> coords@.contains((#[trigger] rooms[i]).0) && 1
                    <= rooms[i].1 < size / 2,
            cells@ == with_rooms(old(cells)@, rooms),
        decreases num_rooms - n,
    {
        let room_size: i32 = random_in_range(1, max_size);
        if let Some(root_coords) = pick_one(coords) {
            let ghost carved = rooms;
            make_room(cells, &root_coords, room_size);
            proof {
                rooms = carved.push((root_coords, room_size as int));
                assert(rooms.drop_last() =~= carved);
                assert(rooms.last() == (root_coords, room_size as int));
                assert forall|i: int| 0 <= i < rooms.len() implies coords@.contains(
                    (#[trigger] rooms[i]).0,
                ) && 1 <= rooms[i].1 < size / 2 by {
                    if i < carved.len() {
                        assert(rooms[i] == carved[i]);
                    }
                }
            }
        }
        n = n + 1;
    }
    assert(rooms_carved(old(cells)@, cells@, coords@, size as int)) by {
        assert(cells@ == with_rooms(old(cells)@, rooms));
    }
}

/// Whether a corridor can start at a position: a cell lies there that has an
/// open side and a walled one.
pub open spec fn corridor_start(cells: Map<Coords, GridCell>) -> spec_fn(Coords) -> bool {
    |c: Coords| cells.contains_key(c) && cells[c].partly_open() && !cells[c].fully_open()
}

/// The positions among `coords` at which a corridor can start, in the order
/// of `coords`.
fn corridor_starts(cells: &CoordMap<GridCell>, coords: &Vec<Coords>) -> (starts: Vec<Coords>)
    ensures
        starts@ == coords@.filter(corridor_start(cells@)),
{
    let mut starts: Vec<Coords> = Vec::new();
    let mut i: usize = 0;
    proof {
        assert(coords@.take(0).filter(corridor_start(cells@)) =~= Seq::<Coords>::empty());
    }
    while i < coords.len()
        invariant
            i <= coords.len(),
            starts@ == coords@.take(i as int).filter(corridor_start(cells@)),
        decreases coords.len() - i,
    {
        let c = coords[i];
        let mut keep: bool = false;
        if let Some(cell) = cells.get(&c) {
            keep = cell.is_open() && !cell.is_fully_open();
        }
        proof {
            coords@.lemma_take_succ_push(i as int);
            coords@.take(i as int).lemma_filter_push(c, corridor_start(cells@));
        }
        if keep {
            starts.push(c);
        }
        i = i + 1;
    }
    proof {
        coords@.lemma_take_len();
    }
    starts
}

/// Make a path
/// We pick a random starting point and direction
/// We open the wall in direction (and in the cell beyond it)
/// We do this for a random length and then make a random turn
/// We keep doing this until we try to move to the space outside the world
fn make_path(cells: &mut CoordMap<GridCell>, coords: &Vec<Coords>)
    requires
        carving_wf(old(cells)@),
    ensures
        corridor_carved(old(cells)@, final(cells)@, coords@),
        carving_wf(final(cells)@),
        same_cells(old(cells)@, final(cells)@),
{
    proof {
        reveal(corridor_carved);
    }
    let starts = corridor_starts(cells, coords);
    let mut current_coord: Coords = match pick_one(&starts) {
        Some(c) => c,
        None => {
            return ;
        },
    };
    let ghost start = current_coord;
    proof {
        coords@.lemma_filter_contains_rev(corridor_start(cells@), current_coord);
        let k = choose|k: int| 0 <= k < starts@.len() && starts@[k] == current_coord;
        coords@.lemma_filter_pred(corridor_start(cells@), k);
        lemma_has_wall(cells@[current_coord]);
    }
    let walls: Vec<Dir> = match cells.get(&current_coord) {
        Some(cell) => cell.get_walls(),
        None => {
            return ;
        },
    };
    let mut current_dir: Dir = match pick_one(&walls) {
        Some(d) => d,
        None => {
            return ;
        },
    };
    let mut length: i32 = random_in_range(1, 10);
    let mut steps: u32 = 0;
    let ghost mut walk: Seq<(Coords, Dir)> = Seq::empty();
    let ghost mut left: bool = false;
    let ghost mut run: int = 0;
    proof {
        lemma_walk_empty(cells@);
    }
    while steps < MAX_CORRIDOR_STEPS
        invariant_except_break
            !left,
            cells@.contains_key(current_coord),
        invariant
            left ==> walk.len() > 0 && !old(cells)@.contains_key(
                walk.last().0.step(walk.last().1, 1),
            ),
            steps <= MAX_CORRIDOR_STEPS,
            carving_wf(old(cells)@),
            carving_wf(cells@),
            same_cells(old(cells)@, cells@),
            1 <= length < 10,
            walk.len() == steps,
            old(cells)@.contains_key(start),
            coords@.filter(corridor_start(old(cells)@)).contains(start),
            forall|d: Dir| walls@.contains(d) <==> old(cells)@[start].side(d) == EdgeType::Wall,
            walls@.contains(current_dir),
            walk.len() > 0 ==> walk[0].0 == start,
            walk.len() == 0 ==> current_coord == start,
            forall|i: int|
                0 <= i < walk.len() ==> old(cells)@.contains_key((#[trigger] walk[i]).0)
                    && walls@.contains(walk[i].1),
            forall|i: int|
                0 <= i < walk.len() - 1 ==> (#[trigger] walk[i + 1]).0 == walk[i].0 || (walk[i
                    + 1].0 == walk[i].0.step(walk[i].1, 1) && walk[i + 1].1 == walk[i].1),
            walk.len() > 0 ==> current_coord == walk.last().0 || (current_coord
                == walk.last().0.step(walk.last().1, 1) && current_dir == walk.last().1),
            0 <= run <= walk.len(),
            !left ==> walk.len() - run + length <= 9,
            0 < run < walk.len() ==> walk[run].0 == walk[run - 1].0,
            !left && 0 < run == walk.len() ==> current_coord == walk.last().0,
            forall|i: int| 0 <= i && i + 9 < walk.len() ==> #[trigger] turns_within(walk, i),
            cells@ == with_walk(old(cells)@, walk),
        ensures
            left || steps == MAX_CORRIDOR_STEPS,
        decreases MAX_CORRIDOR_STEPS - steps,
    {
        steps = steps + 1;
        length = length - 1;
        let ghost walked = walk;
        let ghost carved = cells@;
        create_edge_between_cells(cells, &current_coord, &current_dir, EdgeType::Open);
        proof {
            walk = walked.push((current_coord, current_dir));
            lemma_walk_push(old(cells)@, carved, walked, current_coord, current_dir);
            assert(walk.last() == (current_coord, current_dir));
            assert forall|i: int| 0 <= i < walk.len() implies old(cells)@.contains_key(
                (#[trigger] walk[i]).0,
            ) && walls@.contains(walk[i].1) by {
                if i < walked.len() {
                    assert(walk[i] == walked[i]);
                }
            }
            assert forall|i: int| 0 <= i < walk.len() - 1 implies (#[trigger] walk[i + 1]).0
                == walk[i].0 || (walk[i + 1].0 == walk[i].0.step(walk[i].1, 1) && walk[i + 1].1
                == walk[i].1) by {
                assert(walk[i] == walked[i]);
                if i + 1 < walked.len() {
                    assert(walk[i + 1] == walked[i + 1]);
                } else {
                    assert(walked.last() == walked[i]);
                }
            }
            if 0 < run {
                assert(walk[run - 1] == walked[run - 1]);
                if run < walked.len() {
                    assert(walk[run] == walked[run]);
                }
                assert(walk[run].0 == walk[run - 1].0);
            }
            assert forall|i: int| 0 <= i && i + 9 < walk.len() implies #[trigger] turns_within(
                walk,
                i,
            ) by {
                if i + 9 < walked.len() {
                    assert(turns_within(walked, i));
                    let j = choose|j: int|
                        i <= j < i + 9 && (#[trigger] walked[j + 1]).0 == walked[j].0;
                    assert(walk[j + 1] == walked[j + 1] && walk[j] == walked[j]);
                } else {
                    let j = run - 1;
                    assert(i <= j < i + 9);
                    assert(walk[j + 1].0 == walk[j].0);
                }
            }
        }

        if length <= 0 {
            proof {
                run = walk.len() as int;
            }
            length = random_in_range(1, 10);
            current_dir =
            match pick_one(&walls) {
                Some(d) => d,
                None => current_dir,
            };
        } else {
            proof {
                lemma_step_near(current_coord, current_dir, 1);
            }
            current_coord = current_coord.to(&current_dir, 1);
            if !cells.contains_key(&current_coord) {
                proof {
                    left = true;
                    assert(!old(cells)@.dom().contains(current_coord));
                }
                break ;
            }
        }
    }
    proof {
        assert(coords@.filter(corridor_start(old(cells)@)).len() > 0);
        assert(1 <= walk.len() <= MAX_CORRIDOR_STEPS);
        assert(walk[0].0 == start);
        assert forall|i: int| 0 <= i < walk.len() implies old(cells)@.contains_key(
            (#[trigger] walk[i]).0,
        ) && old(cells)@[walk[0].0].side(walk[i].1) == EdgeType::Wall by {
            assert(walls@.contains(walk[i].1));
        }
        assert(walk.len() == MAX_CORRIDOR_STEPS || !old(cells)@.contains_key(
            walk.last().0.step(walk.last().1, 1),
        ));
        assert(is_corridor(old(cells)@, coords@, walk));
    }
}

/// Make sure our outer boundry has walls: every edge with no cell behind it
/// becomes a wall.
fn enforce_outer_walls(cells: &mut CoordMap<GridCell>, coords: &Vec<Coords>)
    requires
        carving_wf(old(cells)@),
        forall|c: Coords| old(cells)@.contains_key(c) <==> coords@.contains(c),
    ensures
        final(cells)@ == with_outer_walls(old(cells)@),
        cells_wf(final(cells)@),
        same_cells(old(cells)@, final(cells)@),
{
    let dirs = Dir::get_vec();
    let mut i: usize = 0;
    while i < coords.len()
        invariant
            i <= coords.len(),
            dirs@ == Dir::all(),
            carving_wf(old(cells)@),
            carving_wf(cells@),
            same_cells(old(cells)@, cells@),
            only_walled_out(old(cells)@, cells@),
            forall|c: Coords| old(cells)@.contains_key(c) <==> coords@.contains(c),
            forall|k: int, d: Dir|
                0 <= k < i && !cells@.contains_key(#[trigger] coords@[k].step(d, 1))
                    ==> cells@[coords@[k]].side(d) == EdgeType::Wall,
        decreases coords.len() - i,
    {
        let c = coords[i];
        assert(coords@.contains(c));
        let mut s: usize = 0;
        while s < 6
            invariant
                s <= 6,
                i < coords.len(),
                c == coords@[i as int],
                dirs@ == Dir::all(),
                carving_wf(old(cells)@),
                carving_wf(cells@),
                same_cells(old(cells)@, cells@),
                only_walled_out(old(cells)@, cells@),
                cells@.contains_key(c),
                forall|c: Coords| old(cells)@.contains_key(c) <==> coords@.contains(c),
                forall|k: int, d: Dir|
                    0 <= k < i && !cells@.contains_key(#[trigger] coords@[k].step(d, 1))
                        ==> cells@[coords@[k]].side(d) == EdgeType::Wall,
                forall|t: int|
                    0 <= t < s && !cells@.contains_key(c.step(#[trigger] dirs@[t], 1))
                        ==> cells@[c].side(dirs@[t]) == EdgeType::Wall,
            decreases 6 - s,
        {
            let d = dirs[s];
            proof {
                lemma_step_near(c, d, 1);
            }
            let beyond = c.to(&d, 1);
            if !cells.contains_key(&beyond) {
                let ghost before = cells@;
                proof {
                    lemma_with_edge(before, c, d, EdgeType::Wall);
                }
                create_edge_between_cells(cells, &c, &d, EdgeType::Wall);
                proof {
                    lemma_walled_out(old(cells)@, before, c, d);
                    assert forall|k: int, y: Dir|
                        0 <= k < i && !cells@.contains_key(
                            #[trigger] coords@[k].step(y, 1),
                        ) implies cells@[coords@[k]].side(y) == EdgeType::Wall by {
                        let x = coords@[k];
                        assert(coords@.contains(x));
                        assert(old(cells)@.contains_key(x));
                        assert(before.contains_key(x));
                        if x == c && y == d {
                        } else {
                            assert(!(x == c.step(d, 1)));
                            assert(cells@[x].side(y) == before[x].side(y));
                        }
                    }
                    assert forall|t: int|
                        0 <= t < s && !cells@.contains_key(
                            c.step(#[trigger] dirs@[t], 1),
                        ) implies cells@[c].side(dirs@[t]) == EdgeType::Wall by {
                        assert(dirs@[t] != d);
                        assert(cells@[c].side(dirs@[t]) == before[c].side(dirs@[t]));
                    }
                }
            }
            s = s + 1;
        }
        proof {
            assert forall|k: int, d: Dir|
                0 <= k < i + 1 && !cells@.contains_key(
                    #[trigger] coords@[k].step(d, 1),
                ) implies cells@[coords@[k]].side(d) == EdgeType::Wall by {
                if k == i {
                    let t: int = match d {
                        Dir::Orient0 => 0,
                        Dir::Orient60 => 1,
                        Dir::Orient120 => 2,
                        Dir::Orient180 => 3,
                        Dir::Orient240 => 4,
                        Dir::Orient300 => 5,
                    };
                    assert(dirs@[t] == d);
                }
            }
        }
        i = i + 1;
    }
    proof {
        assert forall|c: Coords, d: Dir|
            cells@.contains_key(c) && !cells@.contains_key(
                #[trigger] c.step(d, 1),
            ) implies cells@[c].side(d) == EdgeType::Wall by {
            assert(coords@.contains(c));
            let k = choose|k: int| 0 <= k < coords@.len() && coords@[k] == c;
            assert(!cells@.contains_key(coords@[k].step(d, 1)));
        }
        lemma_outer_walls_done(old(cells)@, cells@);
    }
}

/// Whether a position lies within `n` steps of the origin.
pub open spec fn in_disc(c: Coords, n: int) -> bool {
    (Coords { q: 0, r: 0 }).distance(c) <= n
}

/// Where the walk round the ring of radius `rad` stands after `step` steps
/// along side `side`. The walk starts at the corner straight left of the
/// origin and takes the six sides in the order of the six directions.
pub open spec fn ring_walk(rad: int, side: int, step: int) -> Coords {
    if side == 0 {
        Coords { q: (-rad) as i32, r: step as i32 }
    } else if side == 1 {
        Coords { q: (step - rad) as i32, r: rad as i32 }
    } else if side == 2 {
        Coords { q: step as i32, r: (rad - step) as i32 }
    } else if side == 3 {
        Coords { q: rad as i32, r: (-step) as i32 }
    } else if side == 4 {
        Coords { q: (rad - step) as i32, r: (-rad) as i32 }
    } else {
        Coords { q: (-step) as i32, r: (step - rad) as i32 }
    }
}

/// The side of the ring of radius `rad` on which the position `c` of that
/// ring lies, and the number of steps along that side that lead to it.
pub open spec fn ring_rank(c: Coords, rad: int) -> (int, int) {
    if c.q == -rad && c.r >= 1 {
        (0, c.r as int)
    } else if c.r == rad {
        (1, c.q + rad)
    } else if c.q + c.r == rad {
        (2, c.q as int)
    } else if c.q == rad {
        (3, -c.r)
    } else if c.r == -rad {
        (4, rad - c.q)
    } else {
        (5, -c.q)
    }
}

/// Whether the walk over the rings has come by the position `c` when it
/// stands `step` steps along side `side` of the ring of radius `rad`.
pub open spec fn walked(c: Coords, rad: int, side: int, step: int) -> bool {
    let dist = (Coords { q: 0, r: 0 }).distance(c);
    let rank = ring_rank(c, rad);
    dist < rad || (dist == rad && (rank.0 < side || (rank.0 == side && rank.1 <= step)))
}

/// The number of the cell at a position: the walk over the rings comes by
/// the cells in the order of their numbers. The cell at the origin is
/// number 0; the ring of radius `rad` begins behind the `3 * rad * (rad - 1)`
/// cells of the rings within it.
pub open spec fn cell_number(c: Coords) -> int {
    let rad = (Coords { q: 0, r: 0 }).distance(c);
    if rad == 0 {
        0
    } else {
        let rank = ring_rank(c, rad);
        3 * rad * (rad - 1) + rank.0 * rad + rank.1
    }
}

/// The walled disc of radius `size`: the cells, and their positions in the
/// order in which the cells were made. The cell at the origin comes first,
/// then ring after ring; ids count up from 0 in that order.
fn build_disc(size: i32) -> (maze: (CoordMap<GridCell>, Vec<Coords>))
    requires
        1 <= size <= MAX_GRID_SIZE,
    ensures
        cells_wf(maze.0@),
        forall|c: Coords| maze.0@.contains_key(c) <==> in_disc(c, size as int),
        forall|c: Coords| maze.0@.contains_key(c) <==> maze.1@.contains(c),
        maze.1@.no_duplicates(),
        maze.1@.len() == 1 + 3 * size * (size + 1),
        forall|i: int| 0 <= i < maze.1@.len() ==> (#[trigger] maze.0@[maze.1@[i]]).id == i,
        forall|c: Coords, d: Dir| maze.0@.contains_key(c) ==> maze.0@[c].side(d) == EdgeType::Wall,
        forall|c: Coords| maze.0@.contains_key(c) ==> (#[trigger] maze.0@[c]).id == cell_number(c),
        maze.0@ == walled_disc(size as int),
{
    let mut cells: CoordMap<GridCell> = CoordMap::new();
    let mut coords: Vec<Coords> = Vec::new();
    let root_coords = Coords { q: 0, r: 0 };
    let mut cell_count: i32 = 0;
    let root_cell = GridCell::new(cell_count, &root_coords);
    cells.insert(root_coords, root_cell);
    coords.push(root_coords);
    let dirs = Dir::get_vec();
    proof {
        assert(coords@[0] == root_coords);
        assert forall|c: Coords| cells@.contains_key(c) <==> coords@.contains(c) by {
            if coords@.contains(c) {
                let k = choose|k: int| 0 <= k < coords@.len() && coords@[k] == c;
            }
        }
    }

    // for each radius
    let mut radius: i32 = 1;
    while radius <= size
        invariant
            1 <= radius <= size + 1,
            size <= MAX_GRID_SIZE,
            dirs@ == Dir::all(),
            root_coords == (Coords { q: 0, r: 0 }),
            cells_consistent(cells@),
            forall|c: Coords| cells@.contains_key(c) <==> walked(c, radius as int, 0, 0),
            forall|c: Coords| cells@.contains_key(c) <==> coords@.contains(c),
            coords@.no_duplicates(),
            coords@.len() == cell_count + 1,
            cell_count == 3 * radius * (radius - 1),
            forall|i: int| 0 <= i < coords@.len() ==> (#[trigger] cells@[coords@[i]]).id == i,
            forall|c: Coords, d: Dir| cells@.contains_key(c) ==> cells@[c].side(d) == EdgeType::Wall,
            forall|c: Coords| cells@.contains_key(c) ==> (#[trigger] cells@[c]).id == cell_number(c),
        decreases size + 1 - radius,
    {
        // we start with the bottom left direction at radius distance
        let mut pos = root_coords.to(&Dir::Orient240, radius);
        let mut side: usize = 0;
        while side < 6
            invariant
                side <= 6,
                1 <= radius <= size <= MAX_GRID_SIZE,
                dirs@ == Dir::all(),
                side < 6 ==> pos == ring_walk(radius as int, side as int, 0),
                cells_consistent(cells@),
                forall|c: Coords| cells@.contains_key(c) <==> walked(c, radius as int, side as int, 0),
                forall|c: Coords| cells@.contains_key(c) <==> coords@.contains(c),
                coords@.no_duplicates(),
                coords@.len() == cell_count + 1,
                cell_count == 3 * radius * (radius - 1) + side * radius,
                forall|i: int| 0 <= i < coords@.len() ==> (#[trigger] cells@[coords@[i]]).id == i,
                forall|c: Coords, d: Dir|
                    cells@.contains_key(c) ==> cells@[c].side(d) == EdgeType::Wall,
                forall|c: Coords| cells@.contains_key(c) ==> (#[trigger] cells@[c]).id == cell_number(c),
            decreases 6 - side,
        {
            // note we never step to angle 360 b/c that's where we started
            let dir = dirs[side];
            let mut step: i32 = 0;
            while step < radius
                invariant
                    side < 6,
                    0 <= step <= radius,
                    1 <= radius <= size <= MAX_GRID_SIZE,
                    dir == Dir::all()[side as int],
                    pos == ring_walk(radius as int, side as int, step as int),
                    cells_consistent(cells@),
                    forall|c: Coords|
                        cells@.contains_key(c) <==> walked(
                            c,
                            radius as int,
                            side as int,
                            step as int,
                        ),
                    forall|c: Coords| cells@.contains_key(c) <==> coords@.contains(c),
                    coords@.no_duplicates(),
                    coords@.len() == cell_count + 1,
                    cell_count == 3 * radius * (radius - 1) + side * radius + step,
                    forall|i: int|
                        0 <= i < coords@.len() ==> (#[trigger] cells@[coords@[i]]).id == i,
                    forall|c: Coords, d: Dir|
                        cells@.contains_key(c) ==> cells@[c].side(d) == EdgeType::Wall,
                    forall|c: Coords| cells@.contains_key(c) ==> (#[trigger] cells@[c]).id == cell_number(c),
                decreases radius - step,
            {
                proof {
                    assert(3 * radius * (radius - 1) + side * radius + step < 3 * size * (size + 1))
                        by (nonlinear_arith)
                        requires
                            side < 6,
                            0 <= step < radius,
                            1 <= radius <= size,
                    ;
                    assert(3 * size * (size + 1) <= 3 * 26754 * 26755) by (nonlinear_arith)
                        requires
                            1 <= size <= 26754,
                    ;
                }
                let ghost before = cells@;
                let ghost listed = coords@;
                pos = pos.to(&dir, 1);
                assert(pos == ring_walk(radius as int, side as int, step + 1));
                assert(!walked(pos, radius as int, side as int, step as int));
                cell_count = cell_count + 1;
                let cell = GridCell::new(cell_count, &pos);
                cells.insert(pos, cell);
                coords.push(pos);
                proof {
                    assert forall|c: Coords| cells@.contains_key(c) <==> walked(
                        c,
                        radius as int,
                        side as int,
                        step + 1,
                    ) by {
                        if c != pos {
                            assert(cells@.contains_key(c) == before.contains_key(c));
                        }
                    }
                    assert forall|c: Coords| cells@.contains_key(c) <==> coords@.contains(c) by {
                        if c == pos {
                            assert(coords@[coords@.len() - 1] == pos);
                        } else if before.contains_key(c) {
                            assert(listed.contains(c));
                            let k = choose|k: int| 0 <= k < listed.len() && listed[k] == c;
                            assert(coords@[k] == c);
                        } else if coords@.contains(c) {
                            let k = choose|k: int| 0 <= k < coords@.len() && coords@[k] == c;
                            assert(listed[k] == c);
                            assert(listed.contains(c));
                        }
                    }
                    assert(!listed.contains(pos));
                    assert(cell_number(pos) == cell_count) by {
                        assert((Coords { q: 0, r: 0 }).distance(pos) == radius);
                        assert(ring_rank(pos, radius as int) == (side as int, step + 1));
                    }
                    assert forall|c: Coords| cells@.contains_key(c) implies (
                    #[trigger] cells@[c]).id == cell_number(c) by {
                        if c != pos {
                            assert(before.contains_key(c));
                            assert(cells@[c] == before[c]);
                        }
                    }
                    assert forall|i: int|
                        0 <= i < coords@.len() implies (#[trigger] cells@[coords@[i]]).id == i by {
                        if i < listed.len() {
                            assert(listed[i] == coords@[i]);
                            assert(listed.contains(listed[i]));
                            assert(before[listed[i]].id == i);
                        }
                    }
                }
                step = step + 1;
            }
            proof {
                assert((side + 1) * radius == side * radius + radius) by (nonlinear_arith);
                assert forall|c: Coords| cells@.contains_key(c) <==> walked(
                    c,
                    radius as int,
                    side + 1,
                    0,
                ) by {}
            }
            side = side + 1;
        }
        proof {
            assert(3 * radius * (radius - 1) + 6 * radius == 3 * (radius + 1) * radius)
                by (nonlinear_arith);
            assert forall|c: Coords| cells@.contains_key(c) <==> walked(c, radius + 1, 0, 0) by {}
        }
        radius = radius + 1;
    }
    proof {
        assert(3 * (size + 1) * size == 3 * size * (size + 1)) by (nonlinear_arith);
        assert forall|c: Coords| cells@.contains_key(c) <==> in_disc(c, size as int) by {}
        assert forall|c: Coords, d: Dir|
            cells@.contains_key(c) && !cells@.contains_key(
                #[trigger] c.step(d, 1),
            ) implies cells@[c].side(d) == EdgeType::Wall by {}
        let disc = walled_disc(size as int);
        assert forall|c: Coords| cells@.contains_key(c) implies cells@[c] == disc[c] by {
            assert(cells@[c].id == cell_number(c));
            assert(cells@[c].coords() == c);
            assert(cells@[c].side(Dir::Orient0) == EdgeType::Wall);
            assert(cells@[c].side(Dir::Orient60) == EdgeType::Wall);
            assert(cells@[c].side(Dir::Orient120) == EdgeType::Wall);
            assert(cells@[c].side(Dir::Orient180) == EdgeType::Wall);
            assert(cells@[c].side(Dir::Orient240) == EdgeType::Wall);
            assert(cells@[c].side(Dir::Orient300) == EdgeType::Wall);
        }
        assert(cells@ =~= disc);
    }
    (cells, coords)
}

/// Makes the maze of radius `size`: the disc of cells round the origin, with
/// rooms and corridors carved into it at random and walls all round it.
/// Returns the cells and their positions in the order of the cells' ids,
/// which is the order in which the walk over the rings comes by them. A
/// maze that is wide enough for a room has a cell that is no closed cell.
pub fn generate_cells(size: i32) -> (maze: (CoordMap<GridCell>, Vec<Coords>))
    requires
        1 <= size <= MAX_GRID_SIZE,
    ensures
        cells_wf(maze.0@),
        forall|c: Coords| maze.0@.contains_key(c) <==> in_disc(c, size as int),
        forall|c: Coords| maze.0@.contains_key(c) <==> maze.1@.contains(c),
        maze.1@.no_duplicates(),
        maze.1@.len() == 1 + 3 * size * (size + 1),
        forall|i: int| 0 <= i < maze.1@.len() ==> (#[trigger] maze.0@[maze.1@[i]]).id == i,
        forall|c: Coords| maze.0@.contains_key(c) ==> (#[trigger] maze.0@[c]).id == cell_number(c),
        maze_carved(size as int, maze.0@, maze.1@),
        room_count(size as int) > 0 ==> exists|c: Coords|
            maze.0@.contains_key(c) && (#[trigger] maze.0@[c]).partly_open(),
{
    let (mut cells, coords) = build_disc(size);
    let ghost disc = cells@;
    proof {
        assert forall|i: int| 0 <= i < coords@.len() implies cells@.contains_key(
            #[trigger] coords@[i],
        ) by {
            assert(coords@.contains(coords@[i]));
        }
    }
    add_rooms(&mut cells, &coords, size);
    let ghost roomed = cells@;
    add_corridors(&mut cells, &coords, size);
    let ghost carved = cells@;
    enforce_outer_walls(&mut cells, &coords);
    proof {
        assert forall|i: int| 0 <= i < coords@.len() implies (#[trigger] cells@[coords@[i]]).id
            == i by {
            assert(coords@.contains(coords@[i]));
            assert(disc.contains_key(coords@[i]));
        }
        assert forall|c: Coords| cells@.contains_key(c) implies (#[trigger] cells@[c]).id
            == cell_number(c) by {
            assert(disc.contains_key(c));
        }
        lemma_maze_carved(size as int, roomed, carved, cells@, coords@);
        lemma_maze_open(size as int, cells@, coords@);
    }
    (cells, coords)
}

/// Carves the corridors: twice as many as the maze's radius, one after the
/// other.
fn add_corridors(cells: &mut CoordMap<GridCell>, coords: &Vec<Coords>, size: i32)
    requires
        carving_wf(old(cells)@),
        1 <= size <= MAX_GRID_SIZE,
    ensures
        corridors_carved(old(cells)@, final(cells)@, coords@, 2 * size),
        carving_wf(final(cells)@),
        same_cells(old(cells)@, final(cells)@),
{
    let ghost mut stages: Seq<Map<Coords, GridCell>> = seq![cells@];
    let mut n: i32 = 0;
    while n < size * 2
        invariant
            0 <= n <= size * 2,
            1 <= size <= MAX_GRID_SIZE,
            carving_wf(cells@),
            same_cells(old(cells)@, cells@),
            stages.len() == n + 1,
            stages[0] == old(cells)@,
            stages[n as int] == cells@,
            forall|k: int|
                0 <= k < n ==> corridor_carved(#[trigger] stages[k], stages[k + 1], coords@),
        decreases size * 2 - n,
    {
        let ghost carved = stages;
        make_path(cells, coords);
        proof {
            stages = carved.push(cells@);
            assert forall|k: int| 0 <= k < n + 1 implies corridor_carved(
                #[trigger] stages[k],
                stages[k + 1],
                coords@,
            ) by {
                assert(stages[k] == carved[k]);
                if k < n {
                    assert(stages[k + 1] == carved[k + 1]);
                }
            }
        }
        n = n + 1;
    }
    proof {
        reveal(corridors_carved);
        assert(stages.len() == 2 * size + 1 && stages[0] == old(cells)@ && stages[2 * size]
            == cells@);
    }
}

/// What setting an edge from both sides does to one side of one cell: the
/// side is set where it is the side named or the other side of that edge,
/// and stays as it is else.
proof fn lemma_edge_written(
    cells: Map<Coords, GridCell>,
    p: Coords,
    s: Dir,
    e: EdgeType,
    c: Coords,
    d: Dir,
)
    requires
        carving_wf(cells),
        cells.contains_key(p),
        cells.contains_key(c),
    ensures
        with_edge(cells, p, s, e).contains_key(c),
        with_edge(cells, p, s, e)[c].side(d) == (if (c == p && d == s) || (c.step(d, 1) == p && d
            == s.opposite()) {
            e
        } else {
            cells[c].side(d)
        }),
{
    lemma_step_near(p, s, 1);
    lemma_step_near(c, d, 1);
    assert(within_limit(p) && within_limit(c));
    assert((c.step(d, 1) == p && d == s.opposite()) <==> (c == p.step(s, 1) && d == s.opposite()));
}

/// What setting several edges of a cell from both sides does to one side
/// of one cell.
proof fn lemma_edges_written(
    cells: Map<Coords, GridCell>,
    p: Coords,
    sides: Seq<Dir>,
    e: EdgeType,
    c: Coords,
    d: Dir,
)
    requires
        carving_wf(cells),
        cells.contains_key(p),
        cells.contains_key(c),
    ensures
        with_edges(cells, p, sides, e).contains_key(c),
        with_edges(cells, p, sides, e)[c].side(d) == (if (c == p && sides.contains(d)) || (c.step(
            d,
            1,
        ) == p && sides.contains(d.opposite())) {
            e
        } else {
            cells[c].side(d)
        }),
    decreases sides.len(),
{
    if sides.len() > 0 {
        let rest = sides.drop_last();
        let m = with_edges(cells, p, rest, e);
        lemma_with_edges(cells, p, rest, e);
        lemma_edges_written(cells, p, rest, e, c, d);
        assert(m.dom() == cells.dom());
        assert(m.contains_key(p) && m.contains_key(c));
        lemma_edge_written(m, p, sides.last(), e, c, d);
        assert forall|x: Dir| sides.contains(x) <==> rest.contains(x) || x == sides.last() by {
            if sides.contains(x) {
                let k = choose|k: int| 0 <= k < sides.len() && sides[k] == x;
                if k < rest.len() {
                    assert(rest[k] == x);
                }
            }
            if rest.contains(x) {
                let k = choose|k: int| 0 <= k < rest.len() && rest[k] == x;
                assert(sides[k] == x);
            }
            if x == sides.last() {
                assert(sides[sides.len() - 1] == x);
            }
        }
        assert(d == sides.last().opposite() <==> d.opposite() == sides.last());
    }
}

/// Whether the side `d` of a cell points out of a ring, for a cell on the
/// side of the ring that runs in direction `dir`; `last` says that the cell
/// is the corner at the end of that side.
pub open spec fn points_out(dir: Dir, last: bool, d: Dir) -> bool {
    d == dir.spec_left(120) || d == dir.spec_left(60) || (last && d == dir)
}

/// The carving of a room keeps the cells where they are, and keeps
/// neighbours in agreement, when it comes by a position.
proof fn lemma_visit_keeps(
    cells: Map<Coords, GridCell>,
    p: Coords,
    dir: Dir,
    outer: bool,
    last: bool,
)
    requires
        carving_wf(cells),
    ensures
        carving_wf(room_visit(cells, p, dir, outer, last)),
        same_cells(cells, room_visit(cells, p, dir, outer, last)),
{
    if cells.contains_key(p) {
        lemma_visit_side(cells, p, dir, outer, last, p, Dir::Orient0);
    }
}

/// What the carving of a room does to one side of one cell when it comes by
/// the position `p`.
proof fn lemma_visit_side(
    cells: Map<Coords, GridCell>,
    p: Coords,
    dir: Dir,
    outer: bool,
    last: bool,
    c: Coords,
    d: Dir,
)
    requires
        carving_wf(cells),
        cells.contains_key(c),
    ensures
        carving_wf(room_visit(cells, p, dir, outer, last)),
        same_cells(cells, room_visit(cells, p, dir, outer, last)),
        room_visit(cells, p, dir, outer, last).contains_key(c),
        room_visit(cells, p, dir, outer, last)[c].side(d) == (if !cells.contains_key(p) {
            cells[c].side(d)
        } else if c == p {
            if outer && points_out(dir, last, d) {
                EdgeType::Wall
            } else {
                EdgeType::Open
            }
        } else if c.step(d, 1) == p {
            if outer && points_out(dir, last, d.opposite()) {
                EdgeType::Wall
            } else {
                EdgeType::Open
            }
        } else {
            cells[c].side(d)
        }),
{
    if cells.contains_key(p) {
        let opened = with_edges(cells, p, Dir::all(), EdgeType::Open);
        lemma_with_edges(cells, p, Dir::all(), EdgeType::Open);
        lemma_edges_written(cells, p, Dir::all(), EdgeType::Open, c, d);
        assert(opened.dom() == cells.dom());
        assert(opened.contains_key(p) && opened.contains_key(c));
        assert forall|x: Dir| Dir::all().contains(x) by {
            let t: int = match x {
                Dir::Orient0 => 0,
                Dir::Orient60 => 1,
                Dir::Orient120 => 2,
                Dir::Orient180 => 3,
                Dir::Orient240 => 4,
                Dir::Orient300 => 5,
            };
            assert(Dir::all()[t] == x);
        }
        lemma_step_near(c, d, 1);
        assert(within_limit(c));
        assert(c.step(d, 1) != c);
        if outer {
            let sides = outward_sides(dir, last);
            lemma_with_edges(opened, p, sides, EdgeType::Wall);
            lemma_edges_written(opened, p, sides, EdgeType::Wall, c, d);
            assert forall|x: Dir| sides.contains(x) <==> points_out(dir, last, x) by {
                if sides.contains(x) {
                    let k = choose|k: int| 0 <= k < sides.len() && sides[k] == x;
                }
                if points_out(dir, last, x) {
                    if last {
                        assert(sides[0] == dir);
                        assert(sides[1] == dir.spec_left(120));
                        assert(sides[2] == dir.spec_left(60));
                    } else {
                        assert(sides[0] == dir.spec_left(120));
                        assert(sides[1] == dir.spec_left(60));
                    }
                }
            }
            assert forall|x: Coords| #[trigger] cells.contains_key(x) implies with_edges(
                opened,
                p,
                sides,
                EdgeType::Wall,
            )[x].id == cells[x].id by {
                assert(opened.contains_key(x));
            }
        }
    }
}

/// Where the walk round the ring of radius `rad` about `root` stands after
/// `step` steps along side `side`.
pub open spec fn room_place(root: Coords, rad: int, side: int, step: int) -> Coords {
    let at = ring_walk(rad, side, step);
    Coords { q: (root.q + at.q) as i32, r: (root.r + at.r) as i32 }
}

/// The cells after the carving of a room has come by the position `c` on a
/// side of a ring that runs in direction `dir`. Where a cell lies there, all
/// its edges are opened; on the outermost ring of the room, `outer`, the
/// sides that point out of the room are walled up again. `last` says that
/// the position is the corner at the end of that side.
pub open spec fn room_visit(
    cells: Map<Coords, GridCell>,
    c: Coords,
    dir: Dir,
    outer: bool,
    last: bool,
) -> Map<Coords, GridCell> {
    if cells.contains_key(c) {
        let opened = with_edges(cells, c, Dir::all(), EdgeType::Open);
        if outer {
            with_edges(opened, c, outward_sides(dir, last), EdgeType::Wall)
        } else {
            opened
        }
    } else {
        cells
    }
}

/// The position `c` as it is seen from `root`.
pub open spec fn seen_from(root: Coords, c: Coords) -> Coords {
    Coords { q: (c.q - root.q) as i32, r: (c.r - root.r) as i32 }
}

/// Whether the carving of a room about `root` has come by the position `c`
/// when it stands `step` steps along side `side` of the ring of radius
/// `rad`.
pub open spec fn room_walked(root: Coords, c: Coords, rad: int, side: int, step: int) -> bool {
    walked(seen_from(root, c), rad, side, step)
}

/// Whether the edge on side `d` of the cell at `c` lies between the
/// outermost ring of a room of radius `size` about `root` and what lies
/// beyond that ring.
pub open spec fn room_wall(root: Coords, size: int, c: Coords, d: Dir) -> bool {
    let n = c.step(d, 1);
    size >= 1 && ((root.distance(c) == size && root.distance(n) > size) || (root.distance(n)
        == size && root.distance(c) > size))
}

/// The edge on side `d` of the cell at `c` after a room of radius `size` is
/// carved about `root`. The edges of the cells within the room are open,
/// from both sides, but for the edges between the outermost ring of the
/// room and what lies beyond it, which are walls. Every other edge is as it
/// was.
pub open spec fn room_side(
    before: Map<Coords, GridCell>,
    root: Coords,
    size: int,
    c: Coords,
    d: Dir,
) -> EdgeType {
    let n = c.step(d, 1);
    if root.distance(c) <= size || (before.contains_key(n) && root.distance(n) <= size) {
        if room_wall(root, size, c, d) {
            EdgeType::Wall
        } else {
            EdgeType::Open
        }
    } else {
        before[c].side(d)
    }
}

/// The cells with a room of radius `size` about `root`: each cell with the
/// edges that the room gives it.
pub open spec fn with_room(cells: Map<Coords, GridCell>, root: Coords, size: int) -> Map<
    Coords,
    GridCell,
> {
    Map::new(
        |c: Coords| cells.contains_key(c),
        |c: Coords|
            GridCell {
                edge0: room_side(cells, root, size, c, Dir::Orient0),
                edge60: room_side(cells, root, size, c, Dir::Orient60),
                edge120: room_side(cells, root, size, c, Dir::Orient120),
                edge180: room_side(cells, root, size, c, Dir::Orient180),
                edge240: room_side(cells, root, size, c, Dir::Orient240),
                edge300: room_side(cells, root, size, c, Dir::Orient300),
                ..cells[c]
            },
    )
}

/// Whether the carving of a room has set the edge on side `d` of the cell
/// at `c` when its walk stands `step` steps along side `side` of the ring
/// of radius `rad`: it has come by that cell, or by the cell behind the
/// edge.
pub open spec fn room_mark(
    cells: Map<Coords, GridCell>,
    root: Coords,
    c: Coords,
    d: Dir,
    rad: int,
    side: int,
    step: int,
) -> bool {
    room_walked(root, c, rad, side, step) || (cells.contains_key(c.step(d, 1)) && room_walked(
        root,
        c.step(d, 1),
        rad,
        side,
        step,
    ))
}

/// Whether the cells `now` are the cells `before` with the room carved as
/// far as the walk has come: the edges that the carving has set are as they
/// are in the room, and every other edge is as it was.
pub open spec fn room_state(
    before: Map<Coords, GridCell>,
    now: Map<Coords, GridCell>,
    root: Coords,
    size: int,
    rad: int,
    side: int,
    step: int,
) -> bool {
    forall|c: Coords, d: Dir|
        now.contains_key(c) ==> #[trigger] now[c].side(d) == (if room_mark(
            now,
            root,
            c,
            d,
            rad,
            side,
            step,
        ) {
            if room_wall(root, size, c, d) {
                EdgeType::Wall
            } else {
                EdgeType::Open
            }
        } else {
            before[c].side(d)
        })
}

/// Where a position of a ring about `root` lies: as far from `root` as the
/// ring's radius, with the sides that the walk names as pointing out of the
/// ring, and no others, leading one step farther from `root`.
proof fn lemma_ring_place(root: Coords, rad: int, side: int, k: int, d: Dir)
    requires
        within_limit(root),
        1 <= rad <= MAX_GRID_SIZE,
        0 <= side < 6,
        1 <= k <= rad,
    ensures
        root.distance(room_place(root, rad, side, k)) == rad,
        seen_from(root, room_place(root, rad, side, k)) == ring_walk(rad, side, k),
        root.distance(room_place(root, rad, side, k).step(d, 1)) > rad <==> points_out(
            Dir::all()[side],
            k == rad,
            d,
        ),
{
    let dir = Dir::all()[side];
    lemma_turn_tables(dir);
    lemma_turn_tables(dir.spec_left(60));
    assert(dir.spec_left(120) == dir.spec_left(60).spec_left(60));
}

/// How the walk of a room goes on: one step along a side adds the position
/// that it comes to; the end of a side is the start of the next; the end of
/// a ring is the start of the next ring; and before the first ring the walk
/// has come by `root` alone.
proof fn lemma_room_walk(root: Coords, c: Coords, rad: int, side: int, step: int)
    requires
        within_limit(root),
        -2 * MAX_GRID_SIZE - 0x1000_0000 <= c.q <= 2 * MAX_GRID_SIZE + 0x1000_0000,
        -2 * MAX_GRID_SIZE - 0x1000_0000 <= c.r <= 2 * MAX_GRID_SIZE + 0x1000_0000,
        1 <= rad <= MAX_GRID_SIZE + 1,
        0 <= side < 6,
        0 <= step < rad,
    ensures
        room_walked(root, c, rad, side, step + 1) <==> room_walked(root, c, rad, side, step) || c
            == room_place(root, rad, side, step + 1),
        room_walked(root, c, rad, side, rad) <==> room_walked(root, c, rad, side + 1, 0),
        room_walked(root, c, rad, 6, 0) <==> room_walked(root, c, rad + 1, 0, 0),
        room_walked(root, c, 1, 0, 0) <==> c == root,
        room_walked(root, c, rad, 0, 0) <==> root.distance(c) < rad,
{
}

/// The edge that a room has on one side of one cell once the walk has made
/// its next step, where the edges were as they are in the room up to that
/// step.
proof fn lemma_state_visit_at(
    before: Map<Coords, GridCell>,
    now: Map<Coords, GridCell>,
    root: Coords,
    size: int,
    rad: int,
    side: int,
    step: int,
    c: Coords,
    d: Dir,
)
    requires
        carving_wf(now),
        within_limit(root),
        1 <= rad <= size <= MAX_GRID_SIZE,
        0 <= side < 6,
        0 <= step < rad,
        room_state(before, now, root, size, rad, side, step),
        now.contains_key(c),
    ensures
        ({
            let p = room_place(root, rad, side, step + 1);
            let next = room_visit(now, p, Dir::all()[side], rad == size, step + 1 == rad);
            &&& next.contains_key(c)
            &&& next[c].side(d) == (if room_mark(next, root, c, d, rad, side, step + 1) {
                if room_wall(root, size, c, d) {
                    EdgeType::Wall
                } else {
                    EdgeType::Open
                }
            } else {
                before[c].side(d)
            })
        }),
{
    let p = room_place(root, rad, side, step + 1);
    let dir = Dir::all()[side];
    let next = room_visit(now, p, dir, rad == size, step + 1 == rad);
    lemma_visit_side(now, p, dir, rad == size, step + 1 == rad, c, d);
    assert(next.dom() == now.dom());
    assert(next.contains_key(c.step(d, 1)) == now.contains_key(c.step(d, 1)));
    lemma_ring_place(root, rad, side, step + 1, d);
    lemma_ring_place(root, rad, side, step + 1, d.opposite());
    lemma_step_near(c, d, 1);
    lemma_step_back(c, d, 1);
    lemma_room_walk(root, c, rad, side, step);
    lemma_room_walk(root, c.step(d, 1), rad, side, step);
    assert(now[c].side(d) == (if room_mark(now, root, c, d, rad, side, step) {
        if room_wall(root, size, c, d) {
            EdgeType::Wall
        } else {
            EdgeType::Open
        }
    } else {
        before[c].side(d)
    }));
    if now.contains_key(p) && c != p && c.step(d, 1) == p {
        assert(c == p.step(d.opposite(), 1));
    }
}

/// After the next step of the walk the edges are as they are in the room
/// up to that step.
proof fn lemma_state_visit(
    before: Map<Coords, GridCell>,
    now: Map<Coords, GridCell>,
    root: Coords,
    size: int,
    rad: int,
    side: int,
    step: int,
)
    requires
        carving_wf(now),
        within_limit(root),
        1 <= rad <= size <= MAX_GRID_SIZE,
        0 <= side < 6,
        0 <= step < rad,
        room_state(before, now, root, size, rad, side, step),
    ensures
        room_state(
            before,
            room_visit(
                now,
                room_place(root, rad, side, step + 1),
                Dir::all()[side],
                rad == size,
                step + 1 == rad,
            ),
            root,
            size,
            rad,
            side,
            step + 1,
        ),
{
    let p = room_place(root, rad, side, step + 1);
    let next = room_visit(now, p, Dir::all()[side], rad == size, step + 1 == rad);
    lemma_visit_keeps(now, p, Dir::all()[side], rad == size, step + 1 == rad);
    assert(next.dom() == now.dom());
    assert forall|c: Coords, d: Dir| next.contains_key(c) implies #[trigger] next[c].side(d) == (
    if room_mark(next, root, c, d, rad, side, step + 1) {
        if room_wall(root, size, c, d) {
            EdgeType::Wall
        } else {
            EdgeType::Open
        }
    } else {
        before[c].side(d)
    }) by {
        assert(now.contains_key(c));
        lemma_state_visit_at(before, now, root, size, rad, side, step, c, d);
    }
}

/// The carving of a room has set the same edges at the end of a side and
/// at the start of the next, at the end of a ring and at the start of the
/// next ring.
proof fn lemma_mark_turn(
    cells: Map<Coords, GridCell>,
    root: Coords,
    c: Coords,
    d: Dir,
    rad: int,
    side: int,
)
    requires
        within_limit(root),
        within_limit(c),
        1 <= rad <= MAX_GRID_SIZE,
        0 <= side < 6,
    ensures
        room_mark(cells, root, c, d, rad, side, rad) == room_mark(
            cells,
            root,
            c,
            d,
            rad,
            side + 1,
            0,
        ),
        room_mark(cells, root, c, d, rad, 6, 0) == room_mark(cells, root, c, d, rad + 1, 0, 0),
{
    lemma_step_near(c, d, 1);
    lemma_room_walk(root, c, rad, side, 0);
    lemma_room_walk(root, c.step(d, 1), rad, side, 0);
}

/// The edges are as they are in the room at the start of a side if they
/// are at the end of the side before.
proof fn lemma_state_next_side(
    before: Map<Coords, GridCell>,
    now: Map<Coords, GridCell>,
    root: Coords,
    size: int,
    rad: int,
    side: int,
)
    requires
        carving_wf(now),
        within_limit(root),
        1 <= rad <= MAX_GRID_SIZE,
        0 <= side < 6,
        room_state(before, now, root, size, rad, side, rad),
    ensures
        room_state(before, now, root, size, rad, side + 1, 0),
{
    assert forall|c: Coords, d: Dir| now.contains_key(c) implies #[trigger] now[c].side(d) == (
    if room_mark(now, root, c, d, rad, side + 1, 0) {
        if room_wall(root, size, c, d) {
            EdgeType::Wall
        } else {
            EdgeType::Open
        }
    } else {
        before[c].side(d)
    }) by {
        lemma_mark_turn(now, root, c, d, rad, side);
    }
}

/// The edges are as they are in the room at the start of a ring if they
/// are at the end of the ring before.
proof fn lemma_state_next_ring(
    before: Map<Coords, GridCell>,
    now: Map<Coords, GridCell>,
    root: Coords,
    size: int,
    rad: int,
)
    requires
        carving_wf(now),
        within_limit(root),
        1 <= rad <= MAX_GRID_SIZE,
        room_state(before, now, root, size, rad, 6, 0),
    ensures
        room_state(before, now, root, size, rad + 1, 0, 0),
{
    assert forall|c: Coords, d: Dir| now.contains_key(c) implies #[trigger] now[c].side(d) == (
    if room_mark(now, root, c, d, rad + 1, 0, 0) {
        if room_wall(root, size, c, d) {
            EdgeType::Wall
        } else {
            EdgeType::Open
        }
    } else {
        before[c].side(d)
    }) by {
        lemma_mark_turn(now, root, c, d, rad, 0);
    }
}

/// With the cell at `root` opened, the edges are as they are in the room
/// before the walk of the first ring.
proof fn lemma_state_start(before: Map<Coords, GridCell>, root: Coords, size: int)
    requires
        carving_wf(before),
        before.contains_key(root),
        0 <= size <= MAX_GRID_SIZE,
    ensures
        room_state(
            before,
            with_edges(before, root, Dir::all(), EdgeType::Open),
            root,
            size,
            1,
            0,
            0,
        ),
{
    let now = with_edges(before, root, Dir::all(), EdgeType::Open);
    assert(now == room_visit(before, root, Dir::Orient0, false, false));
    lemma_visit_keeps(before, root, Dir::Orient0, false, false);
    assert(now.dom() == before.dom());
    assert forall|c: Coords, d: Dir| now.contains_key(c) implies #[trigger] now[c].side(d) == (
    if room_mark(now, root, c, d, 1, 0, 0) {
        if room_wall(root, size, c, d) {
            EdgeType::Wall
        } else {
            EdgeType::Open
        }
    } else {
        before[c].side(d)
    }) by {
        assert(before.contains_key(c));
        lemma_visit_side(before, root, Dir::Orient0, false, false, c, d);
        lemma_step_near(c, d, 1);
        lemma_room_walk(root, c, 1, 0, 0);
        lemma_room_walk(root, c.step(d, 1), 1, 0, 0);
    }
}

/// When the walk of a room is over, the cells are the cells with the room.
proof fn lemma_state_done(
    before: Map<Coords, GridCell>,
    now: Map<Coords, GridCell>,
    root: Coords,
    size: int,
)
    requires
        carving_wf(before),
        carving_wf(now),
        same_cells(before, now),
        within_limit(root),
        0 <= size <= MAX_GRID_SIZE,
        room_state(before, now, root, size, size + 1, 0, 0),
    ensures
        now == with_room(before, root, size),
{
    assert forall|c: Coords, d: Dir| now.contains_key(c) implies #[trigger] now[c].side(d)
        == room_side(before, root, size, c, d) by {
        lemma_step_near(c, d, 1);
        assert(before.contains_key(c.step(d, 1)) == now.contains_key(c.step(d, 1)));
        lemma_room_walk(root, c, size + 1, 0, 0);
        lemma_room_walk(root, c.step(d, 1), size + 1, 0, 0);
    }
    let room = with_room(before, root, size);
    assert forall|c: Coords| now.contains_key(c) implies now[c] == room[c] by {
        assert(before.contains_key(c));
        assert(now[c].id == before[c].id);
        assert(now[c].coords() == c && before[c].coords() == c);
        assert(now[c].side(Dir::Orient0) == room[c].edge0);
        assert(now[c].side(Dir::Orient60) == room[c].edge60);
        assert(now[c].side(Dir::Orient120) == room[c].edge120);
        assert(now[c].side(Dir::Orient180) == room[c].edge180);
        assert(now[c].side(Dir::Orient240) == room[c].edge240);
        assert(now[c].side(Dir::Orient300) == room[c].edge300);
    }
    assert(now =~= room);
}

/// The cells after rooms are carved one after the other, each given by its
/// centre and its radius.
pub open spec fn with_rooms(cells: Map<Coords, GridCell>, rooms: Seq<(Coords, int)>) -> Map<
    Coords,
    GridCell,
>
    decreases rooms.len(),
{
    if rooms.len() == 0 {
        cells
    } else {
        with_room(with_rooms(cells, rooms.drop_last()), rooms.last().0, rooms.last().1)
    }
}

/// How many rooms a maze of radius `size` gets: half as many as its radius,
/// and none where that leaves no radius for a room to have.
pub open spec fn room_count(size: int) -> int {
    if size / 2 <= 1 {
        0
    } else {
        size / 2
    }
}

/// What the carving of the rooms makes of the cells of a maze of radius
/// `size`, `coords` being the positions among which the centres are picked:
/// as many rooms as such a maze gets are carved one after the other, each
/// about one of the positions, with a radius of at least 1 and below half
/// the maze's. No room is carved where there is no position to pick.
#[verifier::opaque]
pub open spec fn rooms_carved(
    before: Map<Coords, GridCell>,
    after: Map<Coords, GridCell>,
    coords: Seq<Coords>,
    size: int,
) -> bool {
    exists|rooms: Seq<(Coords, int)>|
        {
            &&& rooms.len() == (if coords.len() == 0 {
                0
            } else {
                room_count(size)
            })
            &&& forall|i: int|
                0 <= i < rooms.len() ==> coords.contains((#[trigger] rooms[i]).0) && 1
                    <= rooms[i].1 < size / 2
            &&& after == #[trigger] with_rooms(before, rooms)
        }
}

/// Whether a walk opens the edge on side `d` of the cell at `c`, from that
/// cell or from the cell behind the edge. A walk is given by the edges that
/// it opens, each by a position and a side of the cell there.
pub open spec fn on_walk(walk: Seq<(Coords, Dir)>, c: Coords, d: Dir) -> bool {
    exists|i: int|
        0 <= i < walk.len() && (#[trigger] walk[i] == (c, d) || walk[i] == (
            c.step(d, 1),
            d.opposite(),
        ))
}

/// The edge on side `d` of the cell at `c` after the edges of a walk are
/// opened: open where the walk opens it, and as it was else.
pub open spec fn walk_side(
    cells: Map<Coords, GridCell>,
    walk: Seq<(Coords, Dir)>,
    c: Coords,
    d: Dir,
) -> EdgeType {
    if on_walk(walk, c, d) {
        EdgeType::Open
    } else {
        cells[c].side(d)
    }
}

/// The cells after the edges of a walk are opened, each from both sides.
pub open spec fn with_walk(cells: Map<Coords, GridCell>, walk: Seq<(Coords, Dir)>) -> Map<
    Coords,
    GridCell,
> {
    Map::new(
        |c: Coords| cells.contains_key(c),
        |c: Coords|
            GridCell {
                edge0: walk_side(cells, walk, c, Dir::Orient0),
                edge60: walk_side(cells, walk, c, Dir::Orient60),
                edge120: walk_side(cells, walk, c, Dir::Orient120),
                edge180: walk_side(cells, walk, c, Dir::Orient180),
                edge240: walk_side(cells, walk, c, Dir::Orient240),
                edge300: walk_side(cells, walk, c, Dir::Orient300),
                ..cells[c]
            },
    )
}

/// A walk with one more edge opens what it opened before, and that edge.
proof fn lemma_on_walk_push(walk: Seq<(Coords, Dir)>, x: (Coords, Dir), c: Coords, d: Dir)
    ensures
        on_walk(walk.push(x), c, d) <==> on_walk(walk, c, d) || x == (c, d) || x == (
            c.step(d, 1),
            d.opposite(),
        ),
{
    let more = walk.push(x);
    if on_walk(more, c, d) {
        let i = choose|i: int|
            0 <= i < more.len() && (#[trigger] more[i] == (c, d) || more[i] == (
                c.step(d, 1),
                d.opposite(),
            ));
        if i < walk.len() {
            assert(walk[i] == more[i]);
        }
    }
    if on_walk(walk, c, d) {
        let i = choose|i: int|
            0 <= i < walk.len() && (#[trigger] walk[i] == (c, d) || walk[i] == (
                c.step(d, 1),
                d.opposite(),
            ));
        assert(more[i] == walk[i]);
    }
    if x == (c, d) || x == (c.step(d, 1), d.opposite()) {
        assert(more[walk.len() as int] == x);
    }
}

/// A walk without an edge leaves the cells as they are.
proof fn lemma_walk_empty(cells: Map<Coords, GridCell>)
    ensures
        with_walk(cells, Seq::empty()) == cells,
{
    let walk = Seq::<(Coords, Dir)>::empty();
    assert forall|c: Coords, d: Dir| !on_walk(walk, c, d) by {}
    assert forall|c: Coords| cells.contains_key(c) implies with_walk(cells, walk)[c]
        == cells[c] by {
        assert(!on_walk(walk, c, Dir::Orient0));
        assert(!on_walk(walk, c, Dir::Orient60));
        assert(!on_walk(walk, c, Dir::Orient120));
        assert(!on_walk(walk, c, Dir::Orient180));
        assert(!on_walk(walk, c, Dir::Orient240));
        assert(!on_walk(walk, c, Dir::Orient300));
    }
    assert(with_walk(cells, walk) =~= cells);
}

/// What opening one more edge does to one side of one cell of the cells of
/// a walk.
proof fn lemma_walk_push_at(
    before: Map<Coords, GridCell>,
    now: Map<Coords, GridCell>,
    walk: Seq<(Coords, Dir)>,
    p: Coords,
    s: Dir,
    c: Coords,
    d: Dir,
)
    requires
        carving_wf(now),
        now.contains_key(p),
        now.contains_key(c),
        now[c].side(d) == walk_side(before, walk, c, d),
    ensures
        with_edge(now, p, s, EdgeType::Open).contains_key(c),
        with_edge(now, p, s, EdgeType::Open)[c].side(d) == walk_side(
            before,
            walk.push((p, s)),
            c,
            d,
        ),
{
    lemma_edge_written(now, p, s, EdgeType::Open, c, d);
    lemma_on_walk_push(walk, (p, s), c, d);
    assert(s == d.opposite() <==> d == s.opposite());
}

/// Opening one more edge, from both sides, gives the cells of the walk with
/// that edge.
proof fn lemma_walk_push(
    before: Map<Coords, GridCell>,
    now: Map<Coords, GridCell>,
    walk: Seq<(Coords, Dir)>,
    p: Coords,
    s: Dir,
)
    requires
        carving_wf(before),
        carving_wf(now),
        same_cells(before, now),
        now == with_walk(before, walk),
        now.contains_key(p),
    ensures
        with_edge(now, p, s, EdgeType::Open) == with_walk(before, walk.push((p, s))),
{
    let next = with_edge(now, p, s, EdgeType::Open);
    let more = walk.push((p, s));
    let goal = with_walk(before, more);
    lemma_with_edge(now, p, s, EdgeType::Open);
    assert(next.dom() == now.dom());
    assert forall|c: Coords| next.contains_key(c) implies next[c] == goal[c] by {
        assert(before.contains_key(c) && now.contains_key(c));
        assert(next[c].id == now[c].id);
        assert(now[c].id == before[c].id);
        assert(next[c].coords() == c && before[c].coords() == c);
        lemma_walk_push_at(before, now, walk, p, s, c, Dir::Orient0);
        lemma_walk_push_at(before, now, walk, p, s, c, Dir::Orient60);
        lemma_walk_push_at(before, now, walk, p, s, c, Dir::Orient120);
        lemma_walk_push_at(before, now, walk, p, s, c, Dir::Orient180);
        lemma_walk_push_at(before, now, walk, p, s, c, Dir::Orient240);
        lemma_walk_push_at(before, now, walk, p, s, c, Dir::Orient300);
        assert(next[c].edge0 == goal[c].edge0);
        assert(next[c].edge60 == goal[c].edge60);
        assert(next[c].edge120 == goal[c].edge120);
        assert(next[c].edge180 == goal[c].edge180);
        assert(next[c].edge240 == goal[c].edge240);
        assert(next[c].edge300 == goal[c].edge300);
    }
    assert(next =~= goal);
}

/// Whether a walk turns where it stands after one of the nine edges from
/// its edge `i` on.
pub open spec fn turns_within(walk: Seq<(Coords, Dir)>, i: int) -> bool {
    exists|j: int| i <= j < i + 9 && (#[trigger] walk[j + 1]).0 == walk[j].0
}

/// Whether `walk` is the walk of a corridor over the cells, `coords` being
/// the positions among which its start is picked. The walk starts where a
/// corridor can start. It opens edges of cells only, each on a side on
/// which the cell at the start had a wall. After each edge it either turns
/// where it stands, or goes on through that edge and keeps its direction;
/// it goes on no more than eight times in a row. It ends where it would
/// leave the cells, or after as many edges as a corridor may take.
pub open spec fn is_corridor(
    cells: Map<Coords, GridCell>,
    coords: Seq<Coords>,
    walk: Seq<(Coords, Dir)>,
) -> bool {
    &&& 1 <= walk.len() <= MAX_CORRIDOR_STEPS
    &&& coords.filter(corridor_start(cells)).contains(walk[0].0)
    &&& forall|i: int|
        0 <= i < walk.len() ==> cells.contains_key((#[trigger] walk[i]).0) && cells[walk[0].0].side(
            walk[i].1,
        ) == EdgeType::Wall
    &&& forall|i: int|
        0 <= i < walk.len() - 1 ==> (#[trigger] walk[i + 1]).0 == walk[i].0 || (walk[i + 1].0
            == walk[i].0.step(walk[i].1, 1) && walk[i + 1].1 == walk[i].1)
    &&& forall|i: int| 0 <= i && i + 9 < walk.len() ==> #[trigger] turns_within(walk, i)
    &&& walk.len() == MAX_CORRIDOR_STEPS || !cells.contains_key(
        walk.last().0.step(walk.last().1, 1),
    )
}

/// What the carving of a corridor makes of the cells: the edges of a
/// corridor's walk are opened, from both sides. Nothing changes where no
/// position is one at which a corridor can start.
#[verifier::opaque]
pub open spec fn corridor_carved(
    before: Map<Coords, GridCell>,
    after: Map<Coords, GridCell>,
    coords: Seq<Coords>,
) -> bool {
    if coords.filter(corridor_start(before)).len() == 0 {
        after == before
    } else {
        exists|walk: Seq<(Coords, Dir)>|
            is_corridor(before, coords, walk) && after == #[trigger] with_walk(before, walk)
    }
}

/// A cell that is not open on all sides has a wall among its walls.
proof fn lemma_has_wall(cell: GridCell)
    requires
        !cell.fully_open(),
    ensures
        cell.walls().len() > 0,
{
    let d = choose|d: Dir| cell.side(d) == EdgeType::Wall;
    let t: int = match d {
        Dir::Orient0 => 0,
        Dir::Orient60 => 1,
        Dir::Orient120 => 2,
        Dir::Orient180 => 3,
        Dir::Orient240 => 4,
        Dir::Orient300 => 5,
    };
    assert(Dir::all()[t] == d);
    reveal_with_fuel(GridCell::walls_among, 7);
    assert(cell.walls_among(t + 1).len() > 0);
}

/// The walled disc of radius `size`: a cell at every position within
/// `size` steps of the origin, under its number, with walls on all sides.
pub open spec fn walled_disc(size: int) -> Map<Coords, GridCell> {
    Map::new(
        |c: Coords| in_disc(c, size),
        |c: Coords|
            GridCell {
                id: cell_number(c) as i32,
                q: c.q,
                r: c.r,
                edge0: EdgeType::Wall,
                edge60: EdgeType::Wall,
                edge120: EdgeType::Wall,
                edge180: EdgeType::Wall,
                edge240: EdgeType::Wall,
                edge300: EdgeType::Wall,
            },
    )
}

/// The edge on side `d` of the cell at `c` after the outer walls are
/// enforced: a wall where no cell lies behind it, and as it was else.
pub open spec fn outer_side(cells: Map<Coords, GridCell>, c: Coords, d: Dir) -> EdgeType {
    if cells.contains_key(c.step(d, 1)) {
        cells[c].side(d)
    } else {
        EdgeType::Wall
    }
}

/// The cells with the outer walls enforced.
pub open spec fn with_outer_walls(cells: Map<Coords, GridCell>) -> Map<Coords, GridCell> {
    Map::new(
        |c: Coords| cells.contains_key(c),
        |c: Coords|
            GridCell {
                edge0: outer_side(cells, c, Dir::Orient0),
                edge60: outer_side(cells, c, Dir::Orient60),
                edge120: outer_side(cells, c, Dir::Orient120),
                edge180: outer_side(cells, c, Dir::Orient180),
                edge240: outer_side(cells, c, Dir::Orient240),
                edge300: outer_side(cells, c, Dir::Orient300),
                ..cells[c]
            },
    )
}

/// Whether no cell lies behind the edge on side `d` of the cell at `c`.
#[verifier::opaque]
pub open spec fn no_cell_behind(cells: Map<Coords, GridCell>, c: Coords, d: Dir) -> bool {
    !cells.contains_key(c.step(d, 1))
}

/// Whether the cells `now` are the cells `before` but for walls on edges
/// that no cell lies behind.
pub open spec fn only_walled_out(
    before: Map<Coords, GridCell>,
    now: Map<Coords, GridCell>,
) -> bool {
    forall|c: Coords, d: Dir|
        now.contains_key(c) ==> #[trigger] now[c].side(d) == before[c].side(d) || (no_cell_behind(
            now,
            c,
            d,
        ) && now[c].side(d) == EdgeType::Wall)
}

/// A wall on an edge that no cell lies behind leaves one side of one cell
/// as it was, or makes it such a wall.
proof fn lemma_walled_out_at(
    now: Map<Coords, GridCell>,
    c: Coords,
    d: Dir,
    x: Coords,
    y: Dir,
)
    requires
        carving_wf(now),
        now.contains_key(c),
        !now.contains_key(c.step(d, 1)),
        now.contains_key(x),
    ensures
        with_edge(now, c, d, EdgeType::Wall).contains_key(x),
        with_edge(now, c, d, EdgeType::Wall)[x].side(y) == now[x].side(y) || (no_cell_behind(
            with_edge(now, c, d, EdgeType::Wall),
            x,
            y,
        ) && with_edge(now, c, d, EdgeType::Wall)[x].side(y) == EdgeType::Wall),
        no_cell_behind(now, x, y) ==> no_cell_behind(with_edge(now, c, d, EdgeType::Wall), x, y),
{
    reveal(no_cell_behind);
    let next = with_edge(now, c, d, EdgeType::Wall);
    lemma_with_edge(now, c, d, EdgeType::Wall);
    assert(next.dom() == now.dom());
    assert(next.contains_key(x.step(y, 1)) == now.contains_key(x.step(y, 1)));
    lemma_edge_written(now, c, d, EdgeType::Wall, x, y);
    lemma_step_near(x, y, 1);
    lemma_step_back(x, y, 1);
    if x.step(y, 1) == c && y == d.opposite() {
        assert(x == c.step(d, 1));
    }
}

/// A wall on an edge that no cell lies behind changes that edge alone.
proof fn lemma_walled_out(
    before: Map<Coords, GridCell>,
    now: Map<Coords, GridCell>,
    c: Coords,
    d: Dir,
)
    requires
        carving_wf(now),
        only_walled_out(before, now),
        now.contains_key(c),
        !now.contains_key(c.step(d, 1)),
    ensures
        only_walled_out(before, with_edge(now, c, d, EdgeType::Wall)),
{
    let next = with_edge(now, c, d, EdgeType::Wall);
    assert forall|x: Coords, y: Dir| next.contains_key(x) implies #[trigger] next[x].side(y)
        == before[x].side(y) || (no_cell_behind(next, x, y) && next[x].side(y)
        == EdgeType::Wall) by {
        lemma_with_edge(now, c, d, EdgeType::Wall);
        assert(next.dom() == now.dom());
        assert(now.contains_key(x));
        lemma_walled_out_at(now, c, d, x, y);
        assert(now[x].side(y) == before[x].side(y) || (no_cell_behind(now, x, y) && now[x].side(y)
            == EdgeType::Wall));
    }
}

/// The edge that the enforcing of the outer walls leaves on one side of one
/// cell.
proof fn lemma_outer_side_at(
    before: Map<Coords, GridCell>,
    now: Map<Coords, GridCell>,
    c: Coords,
    d: Dir,
)
    requires
        now.dom() == before.dom(),
        now.contains_key(c),
        now[c].side(d) == before[c].side(d) || (no_cell_behind(now, c, d) && now[c].side(d)
            == EdgeType::Wall),
        !now.contains_key(c.step(d, 1)) ==> now[c].side(d) == EdgeType::Wall,
    ensures
        now[c].side(d) == outer_side(before, c, d),
{
    reveal(no_cell_behind);
    assert(before.contains_key(c.step(d, 1)) == now.contains_key(c.step(d, 1)));
}

/// Cells that are closed all round, and differ from the cells before only
/// by walls on edges that no cell lies behind, are the cells before with
/// the outer walls enforced.
proof fn lemma_outer_walls_done(before: Map<Coords, GridCell>, now: Map<Coords, GridCell>)
    requires
        cells_consistent(before),
        cells_consistent(now),
        cells_closed(now),
        same_cells(before, now),
        only_walled_out(before, now),
    ensures
        now == with_outer_walls(before),
{
    let goal = with_outer_walls(before);
    assert forall|c: Coords| now.contains_key(c) implies now[c] == goal[c] by {
        assert(before.contains_key(c));
        assert(now[c].id == before[c].id);
        assert(now[c].coords() == c && before[c].coords() == c);
        lemma_outer_side_at(before, now, c, Dir::Orient0);
        lemma_outer_side_at(before, now, c, Dir::Orient60);
        lemma_outer_side_at(before, now, c, Dir::Orient120);
        lemma_outer_side_at(before, now, c, Dir::Orient180);
        lemma_outer_side_at(before, now, c, Dir::Orient240);
        lemma_outer_side_at(before, now, c, Dir::Orient300);
        assert(now[c].edge0 == goal[c].edge0);
        assert(now[c].edge60 == goal[c].edge60);
        assert(now[c].edge120 == goal[c].edge120);
        assert(now[c].edge180 == goal[c].edge180);
        assert(now[c].edge240 == goal[c].edge240);
        assert(now[c].edge300 == goal[c].edge300);
    }
    assert(now =~= goal);
}

/// What the carving of `n` corridors, one after the other, makes of the
/// cells, `coords` being the positions among which each start is picked.
#[verifier::opaque]
pub open spec fn corridors_carved(
    before: Map<Coords, GridCell>,
    after: Map<Coords, GridCell>,
    coords: Seq<Coords>,
    n: int,
) -> bool {
    exists|stages: Seq<Map<Coords, GridCell>>|
        {
            &&& #[trigger] stages.len() == n + 1
            &&& stages[0] == before
            &&& stages[n] == after
            &&& forall|k: int|
                0 <= k < n ==> corridor_carved(#[trigger] stages[k], stages[k + 1], coords)
        }
}

/// Whether `cells` is a maze of radius `size`, `coords` being the positions
/// of its cells in the order of their numbers: the walled disc of that
/// radius, into which the rooms of such a maze are carved, then twice as
/// many corridors as the radius, and on which the outer walls are then
/// enforced.
#[verifier::opaque]
pub open spec fn maze_carved(size: int, cells: Map<Coords, GridCell>, coords: Seq<Coords>) -> bool {
    exists|roomed: Map<Coords, GridCell>, carved: Map<Coords, GridCell>|
        {
            &&& rooms_carved(walled_disc(size), roomed, coords, size)
            &&& #[trigger] corridors_carved(roomed, carved, coords, 2 * size)
            &&& cells == with_outer_walls(carved)
        }
}

/// The walled disc with the rooms and the corridors carved and the outer
/// walls enforced is a maze.
proof fn lemma_maze_carved(
    size: int,
    roomed: Map<Coords, GridCell>,
    carved: Map<Coords, GridCell>,
    cells: Map<Coords, GridCell>,
    coords: Seq<Coords>,
)
    requires
        rooms_carved(walled_disc(size), roomed, coords, size),
        corridors_carved(roomed, carved, coords, 2 * size),
        cells == with_outer_walls(carved),
    ensures
        maze_carved(size, cells, coords),
{
    reveal(maze_carved);
}

/// A position of a disc has a neighbour in the disc: one of the six
/// directions leads from it to a position of the disc.
proof fn lemma_inner_neighbour(c: Coords, size: int) -> (d: Dir)
    requires
        1 <= size <= MAX_GRID_SIZE,
        in_disc(c, size),
    ensures
        in_disc(c.step(d, 1), size),
{
    if in_disc(c.step(Dir::Orient0, 1), size) {
        Dir::Orient0
    } else if in_disc(c.step(Dir::Orient60, 1), size) {
        Dir::Orient60
    } else if in_disc(c.step(Dir::Orient120, 1), size) {
        Dir::Orient120
    } else if in_disc(c.step(Dir::Orient180, 1), size) {
        Dir::Orient180
    } else if in_disc(c.step(Dir::Orient240, 1), size) {
        Dir::Orient240
    } else {
        assert(in_disc(c.step(Dir::Orient300, 1), size));
        Dir::Orient300
    }
}

/// The carving of rooms keeps the cells where they are.
proof fn lemma_rooms_dom(cells: Map<Coords, GridCell>, rooms: Seq<(Coords, int)>)
    ensures
        with_rooms(cells, rooms).dom() == cells.dom(),
    decreases rooms.len(),
{
    if rooms.len() > 0 {
        let before = with_rooms(cells, rooms.drop_last());
        lemma_rooms_dom(cells, rooms.drop_last());
        assert(with_room(before, rooms.last().0, rooms.last().1).dom() =~= before.dom());
    }
}

/// The cell about which a room is carved is open towards each of its
/// neighbours.
proof fn lemma_room_centre_open(cells: Map<Coords, GridCell>, root: Coords, size: int, d: Dir)
    requires
        cells.contains_key(root),
        within_limit(root),
        size >= 1,
    ensures
        with_room(cells, root, size).dom() == cells.dom(),
        with_room(cells, root, size)[root].side(d) == EdgeType::Open,
{
    assert(with_room(cells, root, size).dom() =~= cells.dom());
    lemma_step_near(root, d, 1);
    assert(root.distance(root) == 0);
    assert(room_side(cells, root, size, root, d) == EdgeType::Open);
}

/// The carving of a corridor keeps the cells where they are, and keeps an
/// open edge open.
proof fn lemma_corridor_keeps_open(
    before: Map<Coords, GridCell>,
    after: Map<Coords, GridCell>,
    coords: Seq<Coords>,
    c: Coords,
    d: Dir,
)
    requires
        corridor_carved(before, after, coords),
        before.contains_key(c),
        before[c].side(d) == EdgeType::Open,
    ensures
        after.dom() == before.dom(),
        after[c].side(d) == EdgeType::Open,
{
    reveal(corridor_carved);
    if coords.filter(corridor_start(before)).len() != 0 {
        let walk = choose|walk: Seq<(Coords, Dir)>|
            is_corridor(before, coords, walk) && after == #[trigger] with_walk(before, walk);
        assert(after.dom() =~= before.dom());
        assert(after[c].side(d) == walk_side(before, walk, c, d));
    }
}

/// The carving of corridors, one after the other, keeps the cells where
/// they are, and keeps an open edge open.
proof fn lemma_corridors_keep_open(
    stages: Seq<Map<Coords, GridCell>>,
    coords: Seq<Coords>,
    n: int,
    c: Coords,
    d: Dir,
    k: int,
)
    requires
        stages.len() == n + 1,
        forall|j: int| 0 <= j < n ==> corridor_carved(#[trigger] stages[j], stages[j + 1], coords),
        0 <= k <= n,
        stages[0].contains_key(c),
        stages[0][c].side(d) == EdgeType::Open,
    ensures
        stages[k].dom() == stages[0].dom(),
        stages[k][c].side(d) == EdgeType::Open,
    decreases k,
{
    if k > 0 {
        lemma_corridors_keep_open(stages, coords, n, c, d, k - 1);
        assert(corridor_carved(stages[k - 1], stages[k - 1 + 1], coords));
        lemma_corridor_keeps_open(stages[k - 1], stages[k], coords, c, d);
    }
}

/// A maze with a room has a cell that is open on one side at least: the
/// cell about which the last room was carved is open towards a neighbour,
/// and neither a corridor nor the outer walls close that edge.
pub proof fn lemma_maze_has_open_cell(size: int, cells: Map<Coords, GridCell>, coords: Seq<Coords>)
    requires
        1 <= size <= MAX_GRID_SIZE,
        maze_carved(size, cells, coords),
        coords.len() > 0,
        forall|c: Coords| coords.contains(c) ==> in_disc(c, size),
        room_count(size) > 0,
    ensures
        exists|c: Coords| cells.contains_key(c) && (#[trigger] cells[c]).partly_open(),
{
    reveal(maze_carved);
    reveal(rooms_carved);
    reveal(corridors_carved);
    let (roomed, carved) = choose|roomed: Map<Coords, GridCell>, carved: Map<Coords, GridCell>|
        {
            &&& rooms_carved(walled_disc(size), roomed, coords, size)
            &&& #[trigger] corridors_carved(roomed, carved, coords, 2 * size)
            &&& cells == with_outer_walls(carved)
        };
    let disc = walled_disc(size);
    let rooms = choose|rooms: Seq<(Coords, int)>|
        {
            &&& rooms.len() == (if coords.len() == 0 {
                0
            } else {
                room_count(size)
            })
            &&& forall|i: int|
                0 <= i < rooms.len() ==> coords.contains((#[trigger] rooms[i]).0) && 1
                    <= rooms[i].1 < size / 2
            &&& roomed == #[trigger] with_rooms(disc, rooms)
        };
    let root = rooms.last().0;
    let radius = rooms.last().1;
    assert(rooms[rooms.len() - 1] == rooms.last());
    assert(coords.contains(root) && radius >= 1);
    assert(in_disc(root, size));
    let d = lemma_inner_neighbour(root, size);
    let before = with_rooms(disc, rooms.drop_last());
    lemma_rooms_dom(disc, rooms.drop_last());
    assert(before.contains_key(root));
    assert(root.distance(root) == 0);
    assert(within_limit(root));
    lemma_room_centre_open(before, root, radius, d);
    assert(roomed == with_room(before, root, radius));
    assert(roomed.dom() == disc.dom());
    let stages = choose|stages: Seq<Map<Coords, GridCell>>|
        {
            &&& #[trigger] stages.len() == 2 * size + 1
            &&& stages[0] == roomed
            &&& stages[2 * size] == carved
            &&& forall|k: int|
                0 <= k < 2 * size ==> corridor_carved(#[trigger] stages[k], stages[k + 1], coords)
        };
    lemma_corridors_keep_open(stages, coords, 2 * size, root, d, 2 * size);
    assert(carved.dom() == disc.dom());
    assert(carved.contains_key(root.step(d, 1)));
    assert(cells.contains_key(root));
    assert(cells[root].side(d) == outer_side(carved, root, d));
    assert(cells[root].side(d) != EdgeType::Wall);
    assert(cells[root].partly_open());
}

/// A maze that is wide enough for a room has a cell that is open on one
/// side at least.
proof fn lemma_maze_open(size: int, cells: Map<Coords, GridCell>, coords: Seq<Coords>)
    requires
        1 <= size <= MAX_GRID_SIZE,
        maze_carved(size, cells, coords),
        forall|c: Coords| cells.contains_key(c) <==> in_disc(c, size),
        forall|c: Coords| cells.contains_key(c) <==> coords.contains(c),
        coords.len() == 1 + 3 * size * (size + 1),
    ensures
        room_count(size) > 0 ==> exists|c: Coords|
            cells.contains_key(c) && (#[trigger] cells[c]).partly_open(),
{
    if room_count(size) > 0 {
        assert(3 * size * (size + 1) >= 0) by (nonlinear_arith)
            requires
                size >= 1,
        ;
        assert forall|c: Coords| coords.contains(c) implies in_disc(c, size) by {
            assert(cells.contains_key(c));
        }
        lemma_maze_has_open_cell(size, cells, coords);
    }
}

} // verus!
