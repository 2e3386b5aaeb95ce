//! Path planning over a set of cells: the flood map, the way back through
//! it, and the moves that follow a way.

use vstd::prelude::*;
use vstd::string::StringExecFns;

use crate::grid::coord_map::CoordMap;
use crate::grid::coords::{
    lemma_scan_index_at, lemma_scan_order_complete, lemma_turn_tables, scan_index, Coords,
    CoordsAndDir, Dir,
};
use crate::grid::edge::EdgeType;
use crate::grid::grid::{cells_consistent, lemma_step_near, Grid, GridCell};
use crate::robot::robot::Robot;

verus! {

/// One move of a robot.
#[derive(Debug, Clone, Copy, PartialEq, Eq, Structural)]
pub enum MoveStep {
    Forward,
    Left,
    Right,
}

/// How a cell was reached: from the cell at `coords`, through its side
/// `dir`.
#[derive(Debug, Clone, Copy, PartialEq, Eq, Structural)]
pub struct FromStep {
    pub coords: Coords,
    pub dir: Dir,
}

/// The turn from one direction to another in degrees, above -180 and up to
/// 180: negative to the left, positive to the right. A half turn is a turn
/// to the right.
pub open spec fn spin_angle(from: Dir, to: Dir) -> int {
    let a = to.degrees() - from.degrees();
    if a > 180 {
        a - 360
    } else if a <= -180 {
        a + 360
    } else {
        a
    }
}

/// The moves that turn a robot from one direction to another: one move for
/// every 60 degrees of the turn, all to the same side.
pub open spec fn spin_moves(from: Dir, to: Dir) -> Seq<MoveStep> {
    let a = spin_angle(from, to);
    if a < 0 {
        Seq::new((-a / 60) as nat, |i: int| MoveStep::Left)
    } else {
        Seq::new((a / 60) as nat, |i: int| MoveStep::Right)
    }
}

/// The direction that a robot faces after a move.
pub open spec fn turn(dir: Dir, m: MoveStep) -> Dir {
    match m {
        MoveStep::Forward => dir,
        MoveStep::Left => dir.spec_left(60),
        MoveStep::Right => dir.spec_right(60),
    }
}

/// The direction that a robot faces after a list of moves.
pub open spec fn turn_all(dir: Dir, moves: Seq<MoveStep>) -> Dir
    decreases moves.len(),
{
    if moves.len() == 0 {
        dir
    } else {
        turn(turn_all(dir, moves.drop_last()), moves.last())
    }
}

/// add the steps to spin from one orientation to the other
pub fn find_spin(start_orientation: Dir, end_orientation: Dir) -> (steps: Vec<MoveStep>)
    ensures
        steps@ == spin_moves(start_orientation, end_orientation),
        steps@.len() <= 3,
{
    let mut steps: Vec<MoveStep> = Vec::new();

    let a1: i32 = start_orientation.to_degrees();
    let mut a2: i32 = end_orientation.to_degrees();

    a2 = a2 - a1;
    if a2 > 180 {
        a2 = a2 - 360;
    } else if a2 <= -180 {
        a2 = a2 + 360;
    }
    let ghost whole = a2;

    while a2 != 0
        invariant
            -180 < whole <= 180,
            whole % 60 == 0,
            a2 % 60 == 0,
            whole < 0 ==> whole <= a2 <= 0,
            whole >= 0 ==> 0 <= a2 <= whole,
            whole < 0 ==> steps@ == Seq::new(((a2 - whole) / 60) as nat, |i: int| MoveStep::Left),
            whole >= 0 ==> steps@ == Seq::new(
                ((whole - a2) / 60) as nat,
                |i: int| MoveStep::Right,
            ),
        decreases (if a2 < 0 { -a2 } else { a2 as int }),
    {
        if a2 < 0 {
            steps.push(MoveStep::Left);
            a2 = a2 + 60;
            assert(steps@ =~= Seq::new(((a2 - whole) / 60) as nat, |i: int| MoveStep::Left));
        } else {
            steps.push(MoveStep::Right);
            a2 = a2 - 60;
            assert(steps@ =~= Seq::new(((whole - a2) / 60) as nat, |i: int| MoveStep::Right));
        }
    }

    steps
}

/// The direction after one more move is the turn of the direction before.
pub proof fn lemma_turn_all_push(dir: Dir, moves: Seq<MoveStep>, m: MoveStep)
    ensures
        turn_all(dir, moves.push(m)) == turn(turn_all(dir, moves), m),
{
    assert(moves.push(m).drop_last() =~= moves);
}

/// How many moves a spin takes.
pub open spec fn spin_len(from: Dir, to: Dir) -> int {
    let a = spin_angle(from, to);
    if a < 0 {
        -a / 60
    } else {
        a / 60
    }
}

/// The side to which a spin turns.
pub open spec fn spin_side(from: Dir, to: Dir) -> MoveStep {
    if spin_angle(from, to) < 0 {
        MoveStep::Left
    } else {
        MoveStep::Right
    }
}

/// As many turns as a spin takes, to the side of the spin, lead from the
/// first direction to the second.
proof fn lemma_spin_turns(from: Dir, to: Dir)
    ensures
        0 <= spin_len(from, to) <= 3,
        spin_len(from, to) == 0 ==> from == to,
        spin_len(from, to) == 1 ==> turn(from, spin_side(from, to)) == to,
        spin_len(from, to) == 2 ==> turn(turn(from, spin_side(from, to)), spin_side(from, to))
            == to,
        spin_len(from, to) == 3 ==> turn(
            turn(turn(from, spin_side(from, to)), spin_side(from, to)),
            spin_side(from, to),
        ) == to,
{
    lemma_turn_tables(Dir::Orient0);
    lemma_turn_tables(Dir::Orient60);
    lemma_turn_tables(Dir::Orient120);
    lemma_turn_tables(Dir::Orient180);
    lemma_turn_tables(Dir::Orient240);
    lemma_turn_tables(Dir::Orient300);
}

/// The moves of a spin, made one after the other, turn the robot from the
/// first direction to the second.
pub proof fn lemma_spin_arrives(from: Dir, to: Dir)
    ensures
        turn_all(from, spin_moves(from, to)) == to,
{
    let moves = spin_moves(from, to);
    let m = spin_side(from, to);
    let none = Seq::<MoveStep>::empty();
    let one = none.push(m);
    let two = one.push(m);
    let three = two.push(m);
    lemma_turn_all_push(from, none, m);
    lemma_turn_all_push(from, one, m);
    lemma_turn_all_push(from, two, m);
    lemma_spin_turns(from, to);
    assert(turn_all(from, none) == from);
    assert(moves.len() == spin_len(from, to));
    if moves.len() == 0 {
        assert(moves =~= none);
    } else if moves.len() == 1 {
        assert(moves =~= one);
    } else if moves.len() == 2 {
        assert(moves =~= two);
    } else {
        assert(moves =~= three);
    }
}

/// Whether one can go from the cell at `a` through its side `d` into a cell
/// of `cells`.
pub open spec fn open_step(cells: Map<Coords, GridCell>, a: Coords, d: Dir) -> bool {
    &&& cells.contains_key(a)
    &&& cells[a].side(d) != EdgeType::Wall
    &&& cells.contains_key(a.step(d, 1))
}

/// Where a way ends that starts at `start` and goes one cell in each of the
/// directions `dirs` in turn.
pub open spec fn end_of(start: Coords, dirs: Seq<Dir>) -> Coords
    decreases dirs.len(),
{
    if dirs.len() == 0 {
        start
    } else {
        end_of(start, dirs.drop_last()).step(dirs.last(), 1)
    }
}

/// Whether the way from `start` in the directions `dirs` leads from cell to
/// cell of `cells` through open sides only.
pub open spec fn walkable(cells: Map<Coords, GridCell>, start: Coords, dirs: Seq<Dir>) -> bool
    decreases dirs.len(),
{
    if dirs.len() == 0 {
        true
    } else {
        walkable(cells, start, dirs.drop_last()) && open_step(
            cells,
            end_of(start, dirs.drop_last()),
            dirs.last(),
        )
    }
}

/// Whether some way of at most `k` steps leads from `a` to `b` within
/// `cells`.
pub open spec fn reachable_within(cells: Map<Coords, GridCell>, a: Coords, b: Coords, k: int) -> bool {
    exists|dirs: Seq<Dir>| dirs.len() <= k && #[trigger] walkable(cells, a, dirs) && end_of(a, dirs) == b
}

/// Whether some way leads from `a` to `b` within `cells`.
pub open spec fn reachable(cells: Map<Coords, GridCell>, a: Coords, b: Coords) -> bool {
    exists|dirs: Seq<Dir>| #[trigger] walkable(cells, a, dirs) && end_of(a, dirs) == b
}

/// Whether a flood map from `start` over `cells` is sound: the start is
/// recorded as reached from itself, and every other cell that the map holds
/// is recorded as reached from a cell of the map, through an open side of
/// that cell.
pub open spec fn flood_sound(
    cells: Map<Coords, GridCell>,
    start: Coords,
    came_from: Map<Coords, FromStep>,
) -> bool {
    &&& came_from.contains_key(start)
    &&& came_from[start] == (FromStep { coords: start, dir: Dir::Orient0 })
    &&& forall|c: Coords| #[trigger]
        came_from.contains_key(c) && c != start ==> {
            &&& came_from.contains_key(came_from[c].coords)
            &&& open_step(cells, came_from[c].coords, came_from[c].dir)
            &&& c == came_from[c].coords.step(came_from[c].dir, 1)
        }
}

/// The records of a flood map that lead from `at` back to `start`, the
/// record of `at` first, as far as `fuel` further records reach. There are
/// none where a record is missing on the way.
pub open spec fn path_back(
    came_from: Map<Coords, FromStep>,
    at: Coords,
    start: Coords,
    fuel: nat,
) -> Option<Seq<FromStep>>
    decreases fuel,
{
    if !came_from.contains_key(at) {
        None
    } else if came_from[at].coords == start {
        Some(seq![came_from[at]])
    } else if fuel == 0 {
        None
    } else {
        match path_back(came_from, came_from[at].coords, start, (fuel - 1) as nat) {
            Some(rest) => Some(seq![came_from[at]] + rest),
            None => None,
        }
    }
}

/// The directions of a list of records.
pub open spec fn dirs_of(path: Seq<FromStep>) -> Seq<Dir> {
    path.map_values(|f: FromStep| f.dir)
}

/// The records that lead back from a cell of a sound flood map, read from
/// the start, are a way from the start to that cell.
pub proof fn lemma_path_back_walkable(
    cells: Map<Coords, GridCell>,
    start: Coords,
    came_from: Map<Coords, FromStep>,
    at: Coords,
    fuel: nat,
)
    requires
        flood_sound(cells, start, came_from),
        at != start,
        path_back(came_from, at, start, fuel) is Some,
    ensures
        walkable(cells, start, dirs_of(path_back(came_from, at, start, fuel)->0.reverse())),
        end_of(start, dirs_of(path_back(came_from, at, start, fuel)->0.reverse())) == at,
    decreases fuel,
{
    let f = came_from[at];
    let path = path_back(came_from, at, start, fuel)->0;
    if f.coords == start {
        assert(path =~= seq![f]);
        assert(path.reverse() =~= seq![f]);
        let dirs = dirs_of(path.reverse());
        assert(dirs =~= seq![f.dir]);
        assert(dirs.drop_last() =~= Seq::<Dir>::empty());
        assert(end_of(start, dirs.drop_last()) == start);
        assert(walkable(cells, start, dirs.drop_last()));
        assert(dirs.last() == f.dir);
        assert(open_step(cells, start, f.dir));
        assert(walkable(cells, start, dirs));
    } else {
        let rest = path_back(came_from, f.coords, start, (fuel - 1) as nat)->0;
        lemma_path_back_walkable(cells, start, came_from, f.coords, (fuel - 1) as nat);
        assert(path =~= seq![f] + rest);
        assert(path.reverse() =~= rest.reverse().push(f));
        let dirs = dirs_of(path.reverse());
        assert(dirs =~= dirs_of(rest.reverse()).push(f.dir));
        assert(dirs.drop_last() =~= dirs_of(rest.reverse()));
        assert(dirs.last() == f.dir);
        assert(open_step(cells, f.coords, f.dir));
        assert(walkable(cells, start, dirs));
    }
}

/// given our list of cells and where we transition into those cells
/// traverse this from start to end
pub fn depth_to_path(
    came_from: &CoordMap<FromStep>,
    target_coords: Coords,
    starting_coords: Coords,
) -> (found: Result<Vec<FromStep>, String>)
    ensures
        match path_back(came_from@, target_coords, starting_coords, came_from@.dom().len()) {
            Some(path) => found is Ok && found->Ok_0@ == path.reverse(),
            None => found is Err,
        },
        found is Err && !came_from@.contains_key(target_coords) ==> found->Err_0@
            == "Error: couldn't find the target coords in the depth map"@,
        found is Err && came_from@.contains_key(target_coords) ==> found->Err_0@
            == "Error: couldn't get a step when traversing depth map"@,
{
    let mut path: Vec<FromStep> = Vec::new();
    let size: usize = came_from.len();

    let mut current: FromStep = match came_from.get(&target_coords) {
        Some(op_fromstep) => *op_fromstep,
        None => {
            return Err(
                String::from_str("Error: couldn't find the target coords in the depth map"),
            );
        },
    };
    let ghost mut at = target_coords;
    let mut used: usize = 0;

    while !(current.coords.q == starting_coords.q && current.coords.r == starting_coords.r)
        invariant
            used <= size,
            size == came_from@.dom().len(),
            came_from@.contains_key(target_coords),
            came_from@.contains_key(at),
            current == came_from@[at],
            match path_back(came_from@, at, starting_coords, (size - used) as nat) {
                Some(rest) => path_back(came_from@, target_coords, starting_coords, size as nat)
                    == Some(path@ + rest),
                None => path_back(came_from@, target_coords, starting_coords, size as nat)
                    is None,
            },
        decreases size - used,
    {
        if used == size {
            return Err(String::from_str("Error: couldn't get a step when traversing depth map"));
        }
        path.push(current);
        let ghost before = at;
        proof {
            at = current.coords;
        }
        current =
        match came_from.get(&current.coords) {
            Some(op_fromstep) => *op_fromstep,
            None => {
                proof {
                    assert(path_back(
                        came_from@,
                        at,
                        starting_coords,
                        (size - used - 1) as nat,
                    ) is None);
                    assert(path_back(came_from@, before, starting_coords, (size - used) as nat)
                        is None);
                }
                return Err(
                    String::from_str("Error: couldn't get a step when traversing depth map"),
                );
            },
        };
        used = used + 1;
        proof {
            match path_back(came_from@, at, starting_coords, (size - used) as nat) {
                Some(rest) => {
                    assert(path@ + rest =~= path@.drop_last() + (seq![came_from@[before]] + rest));
                },
                None => {},
            }
        }
    }

    path.push(current);
    let ghost walked = path@;
    proof {
        assert(path@ =~= path@.drop_last() + seq![current]);
    }
    let mut turned: Vec<FromStep> = Vec::new();
    let mut i: usize = path.len();
    while i > 0
        invariant
            i <= path.len(),
            turned@.len() == path.len() - i,
            forall|k: int| 0 <= k < turned@.len() ==> turned@[k] == path@[path.len() - 1 - k],
        decreases i,
    {
        i = i - 1;
        turned.push(path[i]);
    }
    proof {
        assert(turned@ =~= path@.reverse());
    }

    Ok(turned)
}

/// Whether a flood map holds, for every cell it holds, each cell that can
/// be entered from that cell.
pub open spec fn flood_closed(cells: Map<Coords, GridCell>, came_from: Map<Coords, FromStep>) -> bool {
    forall|c: Coords, d: Dir|
        came_from.contains_key(c) && #[trigger] open_step(cells, c, d) ==> came_from.contains_key(
            c.step(d, 1),
        )
}

/// A flood map that holds the start and every cell that can be entered from
/// one of its cells holds the end of every way from the start.
pub proof fn lemma_closed_holds_ways(
    cells: Map<Coords, GridCell>,
    start: Coords,
    came_from: Map<Coords, FromStep>,
    dirs: Seq<Dir>,
)
    requires
        came_from.contains_key(start),
        flood_closed(cells, came_from),
        walkable(cells, start, dirs),
    ensures
        came_from.contains_key(end_of(start, dirs)),
    decreases dirs.len(),
{
    if dirs.len() > 0 {
        lemma_closed_holds_ways(cells, start, came_from, dirs.drop_last());
        assert(open_step(cells, end_of(start, dirs.drop_last()), dirs.last()));
    }
}

/// What a search knows of its flood map while it runs: the map is sound,
/// every cell of it has its place in the queue and its number of steps from
/// the start, and those numbers grow by one from a cell to the cells
/// entered from it.
#[verifier::opaque]
pub open spec fn flood_state(
    cells: Map<Coords, GridCell>,
    start: Coords,
    came_from: Map<Coords, FromStep>,
    queue: Seq<CoordsAndDir>,
    depth: Map<Coords, nat>,
    place: Map<Coords, int>,
) -> bool {
    &&& flood_sound(cells, start, came_from)
    &&& came_from.dom().finite()
    &&& queue.len() == came_from.dom().len()
    &&& depth.contains_key(start) && depth[start] == 0
    &&& forall|i: int|
        0 <= i < queue.len() ==> came_from.contains_key((#[trigger] queue[i]).coords)
            && place[queue[i].coords] == i
    &&& forall|c: Coords| #[trigger]
        came_from.contains_key(c) ==> {
            &&& depth.contains_key(c)
            &&& depth[c] + 1 <= queue.len()
            &&& place.contains_key(c)
            &&& 0 <= place[c] < queue.len()
            &&& queue[place[c]].coords == c
            &&& (c == start || cells.contains_key(c))
            &&& (c != start ==> depth[c] == depth[came_from[c].coords] + 1)
        }
}

/// No cell of a flood map is as many steps from the start as the map has
/// cells.
proof fn lemma_depth_reach(
    cells: Map<Coords, GridCell>,
    start: Coords,
    came_from: Map<Coords, FromStep>,
    queue: Seq<CoordsAndDir>,
    depth: Map<Coords, nat>,
    place: Map<Coords, int>,
    c: Coords,
)
    requires
        flood_state(cells, start, came_from, queue, depth, place),
        came_from.contains_key(c),
    ensures
        depth[c] < came_from.dom().len(),
{
    reveal(flood_state);
}

/// Every cell of a flood map leads back to the start within as many records
/// as the cell is steps from the start.
pub proof fn lemma_depth_leads_back(
    cells: Map<Coords, GridCell>,
    start: Coords,
    came_from: Map<Coords, FromStep>,
    queue: Seq<CoordsAndDir>,
    depth: Map<Coords, nat>,
    place: Map<Coords, int>,
    c: Coords,
    fuel: nat,
)
    requires
        flood_state(cells, start, came_from, queue, depth, place),
        came_from.contains_key(c),
        fuel >= depth[c],
    ensures
        path_back(came_from, c, start, fuel) is Some,
        path_back(came_from, c, start, fuel)->0.len() == (if c == start {
            1
        } else {
            depth[c] as int
        }),
    decreases fuel,
{
    reveal(flood_state);
    if came_from[c].coords != start {
        assert(c != start);
        let p = came_from[c].coords;
        assert(came_from.contains_key(p));
        lemma_depth_leads_back(cells, start, came_from, queue, depth, place, p, (fuel - 1) as nat);
    }
}

/// What a search state says of single cells and of the map's size.
proof fn lemma_flood_state_facts(
    cells: Map<Coords, GridCell>,
    start: Coords,
    came_from: Map<Coords, FromStep>,
    queue: Seq<CoordsAndDir>,
    depth: Map<Coords, nat>,
    place: Map<Coords, int>,
)
    requires
        flood_state(cells, start, came_from, queue, depth, place),
        cells.dom().finite(),
    ensures
        flood_sound(cells, start, came_from),
        came_from.dom().finite(),
        queue.len() == came_from.dom().len(),
        queue.len() <= cells.dom().len() + 1,
        forall|i: int|
            0 <= i < queue.len() ==> came_from.contains_key((#[trigger] queue[i]).coords)
                && place[queue[i].coords] == i,
        forall|c: Coords| #[trigger]
            came_from.contains_key(c) ==> 0 <= place[c] < queue.len() && queue[place[c]].coords
                == c,
{
    reveal(flood_state);
    let all = cells.dom().insert(start);
    assert(came_from.dom().subset_of(all));
    vstd::set_lib::lemma_len_subset(came_from.dom(), all);
}

/// The state in which a search starts.
proof fn lemma_flood_state_first(
    cells: Map<Coords, GridCell>,
    start: Coords,
    facing: Dir,
    came_from: Map<Coords, FromStep>,
)
    requires
        came_from == Map::<Coords, FromStep>::empty().insert(
            start,
            FromStep { coords: start, dir: Dir::Orient0 },
        ),
    ensures
        flood_state(
            cells,
            start,
            came_from,
            seq![CoordsAndDir { coords: start, dir: facing }],
            Map::<Coords, nat>::empty().insert(start, 0nat),
            Map::<Coords, int>::empty().insert(start, 0int),
        ),
{
    reveal(flood_state);
    assert(came_from.dom() =~= Set::<Coords>::empty().insert(start));
}

/// What a search knows of the order in which it comes to cells: the queue
/// holds the cells by rising number of steps from the start, no cell
/// more than one step beyond the cell at the head; no way from the start to
/// a cell of the map is shorter than the cell's number of steps; and every
/// way shorter than the number of steps of the cell at the head ends at a
/// cell whose sides have all been looked through.
#[verifier::opaque]
pub open spec fn flood_levels(
    cells: Map<Coords, GridCell>,
    start: Coords,
    came_from: Map<Coords, FromStep>,
    queue: Seq<CoordsAndDir>,
    depth: Map<Coords, nat>,
    place: Map<Coords, int>,
    head: int,
) -> bool {
    &&& forall|i: int, j: int|
        0 <= i <= j < queue.len() ==> depth[(#[trigger] queue[i]).coords] <= depth[(
        #[trigger] queue[j]).coords]
    &&& 0 <= head < queue.len() ==> depth[queue.last().coords] <= depth[queue[head].coords] + 1
    &&& forall|dirs: Seq<Dir>| #[trigger]
        walkable(cells, start, dirs) && came_from.contains_key(end_of(start, dirs)) ==> depth[end_of(
            start,
            dirs,
        )] <= dirs.len()
    &&& 0 <= head < queue.len() ==> forall|dirs: Seq<Dir>| #[trigger]
        walkable(cells, start, dirs) && dirs.len() < depth[queue[head].coords]
            ==> came_from.contains_key(end_of(start, dirs)) && place[end_of(start, dirs)] < head
}

/// Whether all sides have been looked through of the cells that stand
/// before the head of the queue.
pub open spec fn flood_done_before(
    cells: Map<Coords, GridCell>,
    came_from: Map<Coords, FromStep>,
    place: Map<Coords, int>,
    head: int,
) -> bool {
    forall|c: Coords, d: Dir|
        came_from.contains_key(c) && place[c] < head && #[trigger] open_step(cells, c, d)
            ==> came_from.contains_key(c.step(d, 1))
}

/// The order of a search holds at its start.
proof fn lemma_levels_first(cells: Map<Coords, GridCell>, start: Coords, facing: Dir)
    ensures
        flood_levels(
            cells,
            start,
            Map::<Coords, FromStep>::empty().insert(
                start,
                FromStep { coords: start, dir: Dir::Orient0 },
            ),
            seq![CoordsAndDir { coords: start, dir: facing }],
            Map::<Coords, nat>::empty().insert(start, 0nat),
            Map::<Coords, int>::empty().insert(start, 0int),
            0,
        ),
{
    reveal(flood_levels);
}

/// The order of a search still holds when a cell is recorded that is entered
/// from the cell at the head of the queue.
proof fn lemma_levels_push(
    cells: Map<Coords, GridCell>,
    start: Coords,
    came_from: Map<Coords, FromStep>,
    queue: Seq<CoordsAndDir>,
    depth: Map<Coords, nat>,
    place: Map<Coords, int>,
    head: int,
    d: Dir,
)
    requires
        flood_state(cells, start, came_from, queue, depth, place),
        flood_levels(cells, start, came_from, queue, depth, place, head),
        flood_done_before(cells, came_from, place, head),
        0 <= head < queue.len(),
        open_step(cells, queue[head].coords, d),
        !came_from.contains_key(queue[head].coords.step(d, 1)),
    ensures
        ({
            let current = queue[head].coords;
            let x = current.step(d, 1);
            flood_levels(
                cells,
                start,
                came_from.insert(x, FromStep { coords: current, dir: d }),
                queue.push(CoordsAndDir { coords: x, dir: d }),
                depth.insert(x, depth[current] + 1),
                place.insert(x, queue.len() as int),
                head,
            )
        }),
{
    reveal(flood_state);
    reveal(flood_levels);
    let current = queue[head].coords;
    let x = current.step(d, 1);
    let table = came_from.insert(x, FromStep { coords: current, dir: d });
    let longer = queue.push(CoordsAndDir { coords: x, dir: d });
    let deeper = depth.insert(x, depth[current] + 1);
    let placed = place.insert(x, queue.len() as int);
    assert(came_from.contains_key(current));
    assert forall|i: int| 0 <= i < queue.len() implies deeper[(#[trigger] longer[i]).coords]
        == depth[queue[i].coords] && depth[queue[i].coords] <= depth[current] + 1 by {
        assert(came_from.contains_key(queue[i].coords));
        assert(depth[queue[i].coords] <= depth[queue.last().coords]);
    }
    assert forall|i: int, j: int| 0 <= i <= j < longer.len() implies deeper[(
    #[trigger] longer[i]).coords] <= deeper[(#[trigger] longer[j]).coords] by {
        if j < queue.len() {
            assert(depth[queue[i].coords] <= depth[queue[j].coords]);
        } else if i < queue.len() {
            assert(deeper[longer[i].coords] <= depth[current] + 1);
        }
    }
    assert(deeper[longer[head].coords] == depth[current]);
    assert forall|dirs: Seq<Dir>| #[trigger]
        walkable(cells, start, dirs) && table.contains_key(end_of(start, dirs)) implies deeper[end_of(
        start,
        dirs,
    )] <= dirs.len() by {
        let e = end_of(start, dirs);
        if e == x {
            if dirs.len() <= depth[current] {
                assert(dirs.len() > 0);
                let before = dirs.drop_last();
                assert(walkable(cells, start, before));
                let z = end_of(start, before);
                assert(open_step(cells, z, dirs.last()));
                assert(came_from.contains_key(z) && place[z] < head);
                assert(came_from.contains_key(z.step(dirs.last(), 1)));
            }
        } else {
            assert(came_from.contains_key(e));
        }
    }
    assert forall|dirs: Seq<Dir>| #[trigger]
        walkable(cells, start, dirs) && dirs.len() < deeper[longer[head].coords] implies table.contains_key(
        end_of(start, dirs),
    ) && placed[end_of(start, dirs)] < head by {
        assert(came_from.contains_key(end_of(start, dirs)));
    }
}

/// The order of a search still holds when the search goes on to the next
/// cell of the queue, all sides of the cell at the head having been looked
/// through.
proof fn lemma_levels_advance(
    cells: Map<Coords, GridCell>,
    start: Coords,
    came_from: Map<Coords, FromStep>,
    queue: Seq<CoordsAndDir>,
    depth: Map<Coords, nat>,
    place: Map<Coords, int>,
    head: int,
)
    requires
        flood_state(cells, start, came_from, queue, depth, place),
        flood_levels(cells, start, came_from, queue, depth, place, head),
        flood_done_before(cells, came_from, place, head + 1),
        0 <= head < queue.len(),
    ensures
        flood_levels(cells, start, came_from, queue, depth, place, head + 1),
{
    reveal(flood_state);
    reveal(flood_levels);
    if head + 1 < queue.len() {
        let here = depth[queue[head].coords];
        let next = depth[queue[head + 1].coords];
        assert(here <= next);
        assert(next <= depth[queue.last().coords]);
        assert forall|dirs: Seq<Dir>| #[trigger]
            walkable(cells, start, dirs) && dirs.len() < next implies came_from.contains_key(
            end_of(start, dirs),
        ) && place[end_of(start, dirs)] < head + 1 by {
            let e = end_of(start, dirs);
            if dirs.len() < here {
            } else {
                assert(dirs.len() == here);
                if dirs.len() == 0 {
                    assert(e == start);
                    assert(queue[place[start]].coords == start);
                    if place[start] > head {
                        assert(depth[queue[head + 1].coords] <= depth[queue[place[start]].coords]);
                    }
                } else {
                    let before = dirs.drop_last();
                    assert(walkable(cells, start, before));
                    let z = end_of(start, before);
                    assert(open_step(cells, z, dirs.last()));
                    assert(came_from.contains_key(z) && place[z] < head);
                    assert(came_from.contains_key(e));
                    assert(depth[e] <= dirs.len());
                    assert(queue[place[e]].coords == e);
                    if place[e] > head {
                        assert(depth[queue[head + 1].coords] <= depth[queue[place[e]].coords]);
                    }
                }
            }
        }
    }
}

/// No way from the start to a cell of a flood map takes fewer steps than
/// the records that lead back from the cell.
proof fn lemma_levels_shortest(
    cells: Map<Coords, GridCell>,
    start: Coords,
    came_from: Map<Coords, FromStep>,
    queue: Seq<CoordsAndDir>,
    depth: Map<Coords, nat>,
    place: Map<Coords, int>,
    head: int,
    dirs: Seq<Dir>,
)
    requires
        flood_levels(cells, start, came_from, queue, depth, place, head),
        walkable(cells, start, dirs),
        came_from.contains_key(end_of(start, dirs)),
    ensures
        depth[end_of(start, dirs)] <= dirs.len(),
{
    reveal(flood_levels);
}

/// The direction in which a search came to a cell of its flood map: for
/// the start the direction `facing` in which the search set out, for every
/// other cell the direction by which it was entered.
pub open spec fn arrival(
    came_from: Map<Coords, FromStep>,
    start: Coords,
    facing: Dir,
    c: Coords,
) -> Dir {
    if c == start {
        facing
    } else {
        came_from[c].dir
    }
}

/// What decides the turn of a cell in a search: the turn of the cell from
/// which it was entered, and then the place of the side by which it was
/// entered among the sides of that cell as the search tries them.
pub open spec fn flood_rank(
    came_from: Map<Coords, FromStep>,
    place: Map<Coords, int>,
    start: Coords,
    facing: Dir,
    x: Coords,
) -> (int, int) {
    let from = came_from[x].coords;
    (place[from], scan_index(arrival(came_from, start, facing, from), came_from[x].dir))
}

/// Whether one rank comes before another.
pub open spec fn rank_before(a: (int, int), b: (int, int)) -> bool {
    a.0 < b.0 || (a.0 == b.0 && a.1 < b.1)
}

/// Whether `came_from` is the flood map of the search that sets out from
/// `start` in direction `facing` and looks for `target`, the cells having
/// come to their turn in the order `place`. The start has the first turn.
/// The search looked through the sides of the cells whose turn came before
/// it stopped, which is at the turn of the target or when no cell was left:
/// every cell that can be entered from one of these is in the map, and
/// every cell of the map but the start was entered from one of these. Each
/// cell is recorded as entered from the first cell in turn from which it
/// can be entered; and the cells come to their turn in the order in which
/// the cells they were entered from did, those entered from one cell in
/// the order in which the search tries the sides.
pub open spec fn flood_order(
    cells: Map<Coords, GridCell>,
    start: Coords,
    facing: Dir,
    target: Coords,
    came_from: Map<Coords, FromStep>,
    place: Map<Coords, int>,
) -> bool {
    let n = came_from.dom().len() as int;
    let stop = if came_from.contains_key(target) {
        place[target]
    } else {
        n
    };
    &&& flood_sound(cells, start, came_from)
    &&& came_from.dom().finite()
    &&& place[start] == 0
    &&& forall|c: Coords| #[trigger] came_from.contains_key(c) ==> 0 <= place[c] < n
    &&& forall|a: Coords, b: Coords|
        #[trigger] came_from.contains_key(a) && #[trigger] came_from.contains_key(b) && place[a]
            == place[b] ==> a == b
    &&& forall|y: Coords, d: Dir|
        came_from.contains_key(y) && place[y] < stop && #[trigger] open_step(cells, y, d)
            ==> came_from.contains_key(y.step(d, 1))
    &&& forall|x: Coords| #[trigger]
        came_from.contains_key(x) && x != start ==> place[came_from[x].coords] < stop
    &&& forall|x: Coords, y: Coords, d: Dir|
        #[trigger] came_from.contains_key(x) && x != start && came_from.contains_key(y)
            && place[y] < place[came_from[x].coords] && #[trigger] open_step(cells, y, d)
            ==> y.step(d, 1) != x
    &&& forall|a: Coords, b: Coords|
        #[trigger] came_from.contains_key(a) && #[trigger] came_from.contains_key(b) && a != start
            && b != start && place[a] < place[b] ==> rank_before(
            flood_rank(came_from, place, start, facing, a),
            flood_rank(came_from, place, start, facing, b),
        )
}

/// What a search knows of the turns of the cells while it runs, when it has
/// tried the first `tried` sides of the cell at the head of the queue.
#[verifier::opaque]
pub open spec fn flood_ranks(
    cells: Map<Coords, GridCell>,
    start: Coords,
    facing: Dir,
    target: Coords,
    came_from: Map<Coords, FromStep>,
    queue: Seq<CoordsAndDir>,
    place: Map<Coords, int>,
    head: int,
    tried: int,
) -> bool {
    &&& place[start] == 0
    &&& forall|i: int|
        0 <= i < queue.len() ==> (#[trigger] queue[i]).dir == arrival(
            came_from,
            start,
            facing,
            queue[i].coords,
        )
    &&& forall|x: Coords| #[trigger]
        came_from.contains_key(x) && x != start ==> rank_before(
            flood_rank(came_from, place, start, facing, x),
            (head, tried),
        )
    &&& forall|x: Coords, y: Coords, d: Dir|
        #[trigger] came_from.contains_key(x) && x != start && came_from.contains_key(y)
            && place[y] < place[came_from[x].coords] && #[trigger] open_step(cells, y, d)
            ==> y.step(d, 1) != x
    &&& forall|a: Coords, b: Coords|
        #[trigger] came_from.contains_key(a) && #[trigger] came_from.contains_key(b) && a != start
            && b != start && place[a] < place[b] ==> rank_before(
            flood_rank(came_from, place, start, facing, a),
            flood_rank(came_from, place, start, facing, b),
        )
    &&& forall|c: Coords| #[trigger] came_from.contains_key(c) && place[c] < head ==> c != target
}

/// The turns are in order when a search sets out.
proof fn lemma_ranks_first(cells: Map<Coords, GridCell>, start: Coords, facing: Dir, target: Coords)
    ensures
        flood_ranks(
            cells,
            start,
            facing,
            target,
            Map::<Coords, FromStep>::empty().insert(
                start,
                FromStep { coords: start, dir: Dir::Orient0 },
            ),
            seq![CoordsAndDir { coords: start, dir: facing }],
            Map::<Coords, int>::empty().insert(start, 0int),
            0,
            0,
        ),
{
    reveal(flood_ranks);
}

/// The turns are still in order when a search has tried more sides.
proof fn lemma_ranks_weaken(
    cells: Map<Coords, GridCell>,
    start: Coords,
    facing: Dir,
    target: Coords,
    came_from: Map<Coords, FromStep>,
    queue: Seq<CoordsAndDir>,
    place: Map<Coords, int>,
    head: int,
    tried: int,
    more: int,
)
    requires
        flood_ranks(cells, start, facing, target, came_from, queue, place, head, tried),
        tried <= more,
    ensures
        flood_ranks(cells, start, facing, target, came_from, queue, place, head, more),
{
    reveal(flood_ranks);
}

/// The turns are still in order when a search goes on to the next cell of
/// the queue, the cell at the head not being the target.
proof fn lemma_ranks_advance(
    cells: Map<Coords, GridCell>,
    start: Coords,
    facing: Dir,
    target: Coords,
    came_from: Map<Coords, FromStep>,
    queue: Seq<CoordsAndDir>,
    depth: Map<Coords, nat>,
    place: Map<Coords, int>,
    head: int,
    tried: int,
)
    requires
        flood_state(cells, start, came_from, queue, depth, place),
        flood_ranks(cells, start, facing, target, came_from, queue, place, head, tried),
        0 <= head < queue.len(),
        queue[head].coords != target,
    ensures
        flood_ranks(cells, start, facing, target, came_from, queue, place, head + 1, 0),
{
    reveal(flood_state);
    reveal(flood_ranks);
    assert forall|c: Coords| #[trigger] came_from.contains_key(c) && place[c] < head + 1 implies c
        != target by {
        if place[c] == head {
            assert(queue[place[c]].coords == c);
        }
    }
}

/// The turns are still in order when a cell is recorded that is entered
/// from the cell at the head of the queue through the side that the search
/// tries next.
proof fn lemma_ranks_push(
    cells: Map<Coords, GridCell>,
    start: Coords,
    facing: Dir,
    target: Coords,
    came_from: Map<Coords, FromStep>,
    queue: Seq<CoordsAndDir>,
    depth: Map<Coords, nat>,
    place: Map<Coords, int>,
    head: int,
    tried: int,
    d: Dir,
)
    requires
        flood_state(cells, start, came_from, queue, depth, place),
        flood_ranks(cells, start, facing, target, came_from, queue, place, head, tried),
        flood_done_before(cells, came_from, place, head),
        0 <= head < queue.len(),
        0 <= tried < 6,
        d == Dir::side_scan_order(queue[head].dir)[tried],
        open_step(cells, queue[head].coords, d),
        !came_from.contains_key(queue[head].coords.step(d, 1)),
    ensures
        ({
            let current = queue[head].coords;
            let x = current.step(d, 1);
            flood_ranks(
                cells,
                start,
                facing,
                target,
                came_from.insert(x, FromStep { coords: current, dir: d }),
                queue.push(CoordsAndDir { coords: x, dir: d }),
                place.insert(x, queue.len() as int),
                head,
                tried + 1,
            )
        }),
{
    reveal(flood_state);
    reveal(flood_ranks);
    let current = queue[head].coords;
    let x = current.step(d, 1);
    let table = came_from.insert(x, FromStep { coords: current, dir: d });
    let longer = queue.push(CoordsAndDir { coords: x, dir: d });
    let placed = place.insert(x, queue.len() as int);
    assert(came_from.contains_key(current));
    assert(place[current] == head);
    assert(x != start);
    lemma_scan_index_at(queue[head].dir, tried);
    assert(queue[head].dir == arrival(came_from, start, facing, current));
    assert forall|c: Coords| #[trigger] came_from.contains_key(c) && c != start implies flood_rank(
        table,
        placed,
        start,
        facing,
        c,
    ) == flood_rank(came_from, place, start, facing, c) by {
        assert(came_from.contains_key(came_from[c].coords));
    }
    assert(flood_rank(table, placed, start, facing, x) == (head, tried));
    assert forall|i: int| 0 <= i < longer.len() implies (#[trigger] longer[i]).dir == arrival(
        table,
        start,
        facing,
        longer[i].coords,
    ) by {
        if i < queue.len() {
            assert(came_from.contains_key(queue[i].coords));
        }
    }
    assert forall|c: Coords| #[trigger] table.contains_key(c) && c != start implies rank_before(
        flood_rank(table, placed, start, facing, c),
        (head, tried + 1),
    ) by {
        if c != x {
            assert(came_from.contains_key(c));
        }
    }
    assert forall|c: Coords, y: Coords, e: Dir|
        #[trigger] table.contains_key(c) && c != start && table.contains_key(y) && placed[y]
            < placed[table[c].coords] && #[trigger] open_step(cells, y, e) implies y.step(e, 1)
        != c by {
        if c == x {
            assert(came_from.contains_key(y));
            assert(came_from.contains_key(y.step(e, 1)));
        } else {
            assert(came_from.contains_key(c));
            assert(came_from.contains_key(came_from[c].coords));
            if y == x {
                assert(placed[y] == queue.len());
            } else {
                assert(came_from.contains_key(y));
            }
        }
    }
    assert forall|a: Coords, b: Coords|
        #[trigger] table.contains_key(a) && #[trigger] table.contains_key(b) && a != start && b
            != start && placed[a] < placed[b] implies rank_before(
        flood_rank(table, placed, start, facing, a),
        flood_rank(table, placed, start, facing, b),
    ) by {
        if b == x {
            assert(came_from.contains_key(a));
        } else {
            assert(came_from.contains_key(b));
            if a == x {
                assert(placed[b] < queue.len());
            } else {
                assert(came_from.contains_key(a));
            }
        }
    }
    assert forall|c: Coords| #[trigger] table.contains_key(c) && placed[c] < head implies c
        != target by {
        assert(came_from.contains_key(c));
    }
}

/// When a search stops, its flood map is the flood map of the search, the
/// cells having come to their turn as they stood in the queue.
proof fn lemma_ranks_final(
    cells: Map<Coords, GridCell>,
    start: Coords,
    facing: Dir,
    target: Coords,
    came_from: Map<Coords, FromStep>,
    queue: Seq<CoordsAndDir>,
    depth: Map<Coords, nat>,
    place: Map<Coords, int>,
    head: int,
)
    requires
        flood_state(cells, start, came_from, queue, depth, place),
        flood_ranks(cells, start, facing, target, came_from, queue, place, head, 0),
        flood_done_before(cells, came_from, place, head),
        0 <= head <= queue.len(),
        head < queue.len() ==> queue[head].coords == target,
    ensures
        flood_order(cells, start, facing, target, came_from, place),
{
    let n = came_from.dom().len() as int;
    let stop = if came_from.contains_key(target) {
        place[target]
    } else {
        n
    };
    assert(flood_sound(cells, start, came_from) && came_from.dom().finite() && n == queue.len()
        && place[start] == 0) by {
        reveal(flood_state);
        reveal(flood_ranks);
    }
    assert(stop == head) by {
        reveal(flood_state);
        reveal(flood_ranks);
        if head < queue.len() {
            assert(came_from.contains_key(queue[head].coords));
            assert(place[queue[head].coords] == head);
        } else if came_from.contains_key(target) {
            assert(place[target] < head);
        }
    }
    assert forall|c: Coords| #[trigger] came_from.contains_key(c) implies 0 <= place[c] < n by {
        reveal(flood_state);
    }
    assert forall|a: Coords, b: Coords|
        #[trigger] came_from.contains_key(a) && #[trigger] came_from.contains_key(b) && place[a]
            == place[b] implies a == b by {
        reveal(flood_state);
        assert(queue[place[a]].coords == a);
        assert(queue[place[b]].coords == b);
    }
    assert forall|x: Coords| #[trigger] came_from.contains_key(x) && x != start implies place[came_from[x].coords]
        < stop by {
        reveal(flood_ranks);
        assert(rank_before(flood_rank(came_from, place, start, facing, x), (head, 0)));
    }
    assert forall|x: Coords, y: Coords, d: Dir|
        #[trigger] came_from.contains_key(x) && x != start && came_from.contains_key(y)
            && place[y] < place[came_from[x].coords] && #[trigger] open_step(
            cells,
            y,
            d,
        ) implies y.step(d, 1) != x by {
        reveal(flood_ranks);
    }
    assert forall|a: Coords, b: Coords|
        #[trigger] came_from.contains_key(a) && #[trigger] came_from.contains_key(b) && a != start
            && b != start && place[a] < place[b] implies rank_before(
        flood_rank(came_from, place, start, facing, a),
        flood_rank(came_from, place, start, facing, b),
    ) by {
        reveal(flood_ranks);
    }
}

/// Whether a flood map has only grown: every cell keeps its record and its
/// place in the queue, and new cells stand behind the places that were
/// taken.
pub open spec fn flood_grown(
    before: Map<Coords, FromStep>,
    place_before: Map<Coords, int>,
    taken: int,
    after: Map<Coords, FromStep>,
    place_after: Map<Coords, int>,
) -> bool {
    &&& forall|c: Coords| #[trigger]
        before.contains_key(c) ==> after.contains_key(c) && place_after[c] == place_before[c]
    &&& forall|c: Coords| #[trigger]
        after.contains_key(c) && !before.contains_key(c) ==> place_after[c] >= taken
}

/// Looks through one side of the cell that a search stands on: where the
/// side is open and leads to a cell that the search has not come to, that
/// cell is recorded and queued.
fn visit_side(
    known_cells_full: &CoordMap<GridCell>,
    came_from: &mut CoordMap<FromStep>,
    frontier: &mut Vec<CoordsAndDir>,
    current: Coords,
    cell: GridCell,
    orientation: Dir,
    start: Ghost<Coords>,
    depth: Ghost<Map<Coords, nat>>,
    place: Ghost<Map<Coords, int>>,
    head: Ghost<int>,
    search: Ghost<(Dir, Coords, int)>,
) -> (marks: (Ghost<Map<Coords, nat>>, Ghost<Map<Coords, int>>))
    requires
        cells_consistent(known_cells_full@),
        known_cells_full@.contains_key(current),
        cell == known_cells_full@[current],
        old(came_from)@.contains_key(current),
        flood_state(known_cells_full@, start@, old(came_from)@, old(frontier)@, depth@, place@),
        flood_levels(
            known_cells_full@,
            start@,
            old(came_from)@,
            old(frontier)@,
            depth@,
            place@,
            head@,
        ),
        flood_done_before(known_cells_full@, old(came_from)@, place@, head@),
        0 <= head@ < old(frontier)@.len(),
        old(frontier)@[head@].coords == current,
        flood_ranks(
            known_cells_full@,
            start@,
            search@.0,
            search@.1,
            old(came_from)@,
            old(frontier)@,
            place@,
            head@,
            search@.2,
        ),
        0 <= search@.2 < 6,
        orientation == Dir::side_scan_order(old(frontier)@[head@].dir)[search@.2],
    ensures
        flood_ranks(
            known_cells_full@,
            start@,
            search@.0,
            search@.1,
            final(came_from)@,
            final(frontier)@,
            marks.1@,
            head@,
            search@.2 + 1,
        ),
        flood_levels(
            known_cells_full@,
            start@,
            final(came_from)@,
            final(frontier)@,
            marks.0@,
            marks.1@,
            head@,
        ),
        flood_done_before(known_cells_full@, final(came_from)@, marks.1@, head@),
        flood_state(
            known_cells_full@,
            start@,
            final(came_from)@,
            final(frontier)@,
            marks.0@,
            marks.1@,
        ),
        flood_grown(
            old(came_from)@,
            place@,
            old(frontier)@.len() as int,
            final(came_from)@,
            marks.1@,
        ),
        old(frontier)@.len() <= final(frontier)@.len(),
        forall|i: int| 0 <= i < old(frontier)@.len() ==> final(frontier)@[i] == old(frontier)@[i],
        open_step(known_cells_full@, current, orientation) ==> final(came_from)@.contains_key(
            current.step(orientation, 1),
        ),
{
    let ghost cells = known_cells_full@;
    proof {
        reveal(flood_state);
    }
    // if the side isn't a wall...
    if cell.get_side(orientation) != EdgeType::Wall {
        proof {
            lemma_step_near(current, orientation, 1);
        }
        // get coordinates for the adjacent cell
        let new_coords = current.to(&orientation, 1);
        // if we've seen this cell, don't re add
        if !came_from.contains_key(&new_coords) {
            // since we haven't seen this cell adjacent cell before,
            // add it to the frontier, noting our current orientation
            // also add it to the tracking of how we get to this
            // adjacent cell
            if known_cells_full.contains_key(&new_coords) {
                let ghost before = came_from@;
                let ghost queued = frontier@;
                frontier.push(CoordsAndDir { coords: new_coords, dir: orientation });
                let from_step = FromStep { coords: current, dir: orientation };
                came_from.insert(new_coords, from_step);
                let ghost new_depth = depth@.insert(new_coords, depth@[current] + 1);
                let ghost new_place = place@.insert(new_coords, queued.len() as int);
                proof {
                    lemma_ranks_push(
                        cells,
                        start@,
                        search@.0,
                        search@.1,
                        before,
                        queued,
                        depth@,
                        place@,
                        head@,
                        search@.2,
                        orientation,
                    );
                    lemma_levels_push(
                        cells,
                        start@,
                        before,
                        queued,
                        depth@,
                        place@,
                        head@,
                        orientation,
                    );
                    assert(came_from@.dom() =~= before.dom().insert(new_coords));
                    assert(new_coords != start@);
                    assert forall|i: int| 0 <= i < frontier@.len() implies came_from@.contains_key(
                        (#[trigger] frontier@[i]).coords,
                    ) && new_place[frontier@[i].coords] == i by {
                        if i < queued.len() {
                            assert(frontier@[i] == queued[i]);
                            assert(before.contains_key(queued[i].coords));
                        }
                    }
                    assert forall|c: Coords| #[trigger] came_from@.contains_key(c) implies {
                        &&& new_depth.contains_key(c)
                        &&& new_depth[c] + 1 <= frontier@.len()
                        &&& new_place.contains_key(c)
                        &&& 0 <= new_place[c] < frontier@.len()
                        &&& frontier@[new_place[c]].coords == c
                        &&& (c == start@ || cells.contains_key(c))
                        &&& (c != start@ ==> new_depth[c] == new_depth[came_from@[c].coords] + 1)
                    } by {
                        if c != new_coords {
                            assert(before.contains_key(c));
                            if c != start@ {
                                assert(before.contains_key(before[c].coords));
                            }
                        }
                    }
                    assert forall|c: Coords| #[trigger]
                        came_from@.contains_key(c) && c != start@ implies {
                        &&& came_from@.contains_key(came_from@[c].coords)
                        &&& open_step(cells, came_from@[c].coords, came_from@[c].dir)
                        &&& c == came_from@[c].coords.step(came_from@[c].dir, 1)
                    } by {
                        if c != new_coords {
                            assert(before.contains_key(c));
                        }
                    }
                }
                return (Ghost(new_depth), Ghost(new_place));
            }
        }
    }
    proof {
        lemma_ranks_weaken(
            cells,
            start@,
            search@.0,
            search@.1,
            came_from@,
            frontier@,
            place@,
            head@,
            search@.2,
            search@.2 + 1,
        );
    }
    (depth, place)
}

/// Looks through all sides of the cell that a search stands on, in the
/// order that favours the direction `facing`.
fn visit_cell(
    known_cells_full: &CoordMap<GridCell>,
    came_from: &mut CoordMap<FromStep>,
    frontier: &mut Vec<CoordsAndDir>,
    current: Coords,
    facing: Dir,
    start: Ghost<Coords>,
    depth_before: Ghost<Map<Coords, nat>>,
    place_before: Ghost<Map<Coords, int>>,
    head: Ghost<int>,
    search: Ghost<(Dir, Coords)>,
) -> (marks: (Ghost<Map<Coords, nat>>, Ghost<Map<Coords, int>>))
    requires
        cells_consistent(known_cells_full@),
        old(came_from)@.contains_key(current),
        flood_state(
            known_cells_full@,
            start@,
            old(came_from)@,
            old(frontier)@,
            depth_before@,
            place_before@,
        ),
        flood_levels(
            known_cells_full@,
            start@,
            old(came_from)@,
            old(frontier)@,
            depth_before@,
            place_before@,
            head@,
        ),
        flood_done_before(known_cells_full@, old(came_from)@, place_before@, head@),
        0 <= head@ < old(frontier)@.len(),
        old(frontier)@[head@].coords == current,
        old(frontier)@[head@].dir == facing,
        flood_ranks(
            known_cells_full@,
            start@,
            search@.0,
            search@.1,
            old(came_from)@,
            old(frontier)@,
            place_before@,
            head@,
            0,
        ),
    ensures
        flood_ranks(
            known_cells_full@,
            start@,
            search@.0,
            search@.1,
            final(came_from)@,
            final(frontier)@,
            marks.1@,
            head@,
            6,
        ),
        flood_levels(
            known_cells_full@,
            start@,
            final(came_from)@,
            final(frontier)@,
            marks.0@,
            marks.1@,
            head@,
        ),
        flood_done_before(known_cells_full@, final(came_from)@, marks.1@, head@),
        flood_state(
            known_cells_full@,
            start@,
            final(came_from)@,
            final(frontier)@,
            marks.0@,
            marks.1@,
        ),
        flood_grown(
            old(came_from)@,
            place_before@,
            old(frontier)@.len() as int,
            final(came_from)@,
            marks.1@,
        ),
        old(frontier)@.len() <= final(frontier)@.len(),
        forall|i: int| 0 <= i < old(frontier)@.len() ==> final(frontier)@[i] == old(frontier)@[i],
        forall|d: Dir| #[trigger]
            open_step(known_cells_full@, current, d) ==> final(came_from)@.contains_key(
                current.step(d, 1),
            ),
{
    let ghost cells = known_cells_full@;
    // load the full cell information
    let cell: GridCell = match known_cells_full.get(&current) {
        Some(cell) => *cell,
        None => {
            proof {
                lemma_ranks_weaken(
                    cells,
                    start@,
                    search@.0,
                    search@.1,
                    came_from@,
                    frontier@,
                    place_before@,
                    head@,
                    0,
                    6,
                );
            }
            return (depth_before, place_before);
        },
    };
    let mut depth = depth_before;
    let mut place = place_before;
    // we now inspect all the edges, starting with whatever
    // direction we came into the cell with, and then alternating
    // left and right between larger and larger angles
    let order = Dir::get_side_scan_iter(facing);
    let mut s: usize = 0;
    while s < order.len()
        invariant
            s <= order.len(),
            order@ == Dir::side_scan_order(facing),
            cells == known_cells_full@,
            cells_consistent(cells),
            cells.contains_key(current),
            cell == cells[current],
            came_from@.contains_key(current),
            flood_state(cells, start@, came_from@, frontier@, depth@, place@),
            flood_levels(cells, start@, came_from@, frontier@, depth@, place@, head@),
            flood_done_before(cells, came_from@, place@, head@),
            0 <= head@ < frontier@.len(),
            frontier@[head@].coords == current,
            frontier@[head@].dir == facing,
            flood_ranks(
                cells,
                start@,
                search@.0,
                search@.1,
                came_from@,
                frontier@,
                place@,
                head@,
                s as int,
            ),
            flood_grown(
                old(came_from)@,
                place_before@,
                old(frontier)@.len() as int,
                came_from@,
                place@,
            ),
            old(frontier)@.len() <= frontier@.len(),
            forall|i: int| 0 <= i < old(frontier)@.len() ==> frontier@[i] == old(frontier)@[i],
            forall|t: int|
                0 <= t < s && open_step(cells, current, #[trigger] order@[t])
                    ==> came_from@.contains_key(current.step(order@[t], 1)),
        decreases order.len() - s,
    {
        let ghost table = came_from@;
        let ghost placed = place@;
        let marks = visit_side(
            known_cells_full,
            came_from,
            frontier,
            current,
            cell,
            order[s],
            start,
            depth,
            place,
            head,
            Ghost((search@.0, search@.1, s as int)),
        );
        depth = marks.0;
        place = marks.1;
        proof {
            assert forall|c: Coords| #[trigger]
                came_from@.contains_key(c) && !old(came_from)@.contains_key(c) implies place@[c]
                >= old(frontier)@.len() by {
                if table.contains_key(c) {
                    assert(place@[c] == placed[c]);
                }
            }
        }
        s = s + 1;
    }
    proof {
        assert forall|d: Dir| #[trigger] open_step(cells, current, d) implies came_from@.contains_key(
            current.step(d, 1),
        ) by {
            let t = lemma_scan_order_complete(facing, d);
            assert(order@[t] == d);
        }
    }
    (depth, place)
}

/// Get a depth and directional map from starting to end coords: the cells
/// that can be reached from the start within `known_cells_full`, each with
/// the step by which the search first came to it. The search goes level by
/// level and tries the sides of a cell in the order that favours the
/// direction in which the cell was entered; it stops when it comes to the
/// target.
pub fn flood_map(
    starting_coords: &Coords,
    starting_orientation: &Dir,
    target_coords: &Coords,
    known_cells_full: &CoordMap<GridCell>,
) -> (came_from: CoordMap<FromStep>)
    requires
        cells_consistent(known_cells_full@),
    ensures
        flood_sound(known_cells_full@, *starting_coords, came_from@),
        forall|c: Coords| #[trigger]
            came_from@.contains_key(c) ==> path_back(
                came_from@,
                c,
                *starting_coords,
                came_from@.dom().len(),
            ) is Some,
        reachable(known_cells_full@, *starting_coords, *target_coords) ==> came_from@.contains_key(
            *target_coords,
        ),
        forall|dirs: Seq<Dir>| #[trigger]
            walkable(known_cells_full@, *starting_coords, dirs) && came_from@.contains_key(
                end_of(*starting_coords, dirs),
            ) && end_of(*starting_coords, dirs) != *starting_coords ==> path_back(
                came_from@,
                end_of(*starting_coords, dirs),
                *starting_coords,
                came_from@.dom().len(),
            )->0.len() <= dirs.len(),
        exists|place: Map<Coords, int>| #[trigger]
            flood_order(
                known_cells_full@,
                *starting_coords,
                *starting_orientation,
                *target_coords,
                came_from@,
                place,
            ),
{
    let start = *starting_coords;
    let target = *target_coords;
    // frontier holds the cells we've discovered that need to be explored
    let mut frontier: Vec<CoordsAndDir> = Vec::new();
    frontier.push(CoordsAndDir { coords: start, dir: *starting_orientation });

    // came_from tracks how we got to each cell; start with our starting coords
    let mut came_from: CoordMap<FromStep> = CoordMap::new();
    came_from.insert(start, FromStep { coords: start, dir: Dir::Orient0 });

    let ghost cells = known_cells_full@;
    let mut depth: Ghost<Map<Coords, nat>> = Ghost(Map::empty().insert(start, 0nat));
    let mut place: Ghost<Map<Coords, int>> = Ghost(Map::empty().insert(start, 0int));
    let mut head: usize = 0;
    proof {
        known_cells_full.lemma_finite();
        lemma_flood_state_first(cells, start, *starting_orientation, came_from@);
        lemma_levels_first(cells, start, *starting_orientation);
        lemma_ranks_first(cells, start, *starting_orientation, target);
        assert(frontier@ =~= seq![CoordsAndDir { coords: start, dir: *starting_orientation }]);
        lemma_flood_state_facts(cells, start, came_from@, frontier@, depth@, place@);
    }

    let facing = *starting_orientation;
    loop
        invariant
            cells == known_cells_full@,
            cells_consistent(cells),
            cells.dom().finite(),
            head <= frontier.len(),
            flood_ranks(cells, start, facing, target, came_from@, frontier@, place@, head as int, 0),
            flood_state(cells, start, came_from@, frontier@, depth@, place@),
            flood_levels(cells, start, came_from@, frontier@, depth@, place@, head as int),
            forall|c: Coords| #[trigger] came_from@.contains_key(c) ==> place@[c] < frontier@.len(),
            flood_done_before(cells, came_from@, place@, head as int),
        ensures
            flood_state(cells, start, came_from@, frontier@, depth@, place@),
            flood_levels(cells, start, came_from@, frontier@, depth@, place@, head as int),
            came_from@.contains_key(target) || flood_closed(cells, came_from@),
            flood_order(cells, start, facing, target, came_from@, place@),
        decreases cells.dom().len() + 1 - head,
    {
        proof {
            lemma_flood_state_facts(cells, start, came_from@, frontier@, depth@, place@);
        }
        if head >= frontier.len() {
            proof {
                lemma_ranks_final(
                    cells,
                    start,
                    facing,
                    target,
                    came_from@,
                    frontier@,
                    depth@,
                    place@,
                    head as int,
                );
            }
            break ;
        }
        // take an undiscovered cell from the frontier
        // we take from the start and not the end, in order to favor
        // the direction we are facing
        let current = frontier[head];
        if current.coords.q == target.q && current.coords.r == target.r {
            proof {
                lemma_ranks_final(
                    cells,
                    start,
                    facing,
                    target,
                    came_from@,
                    frontier@,
                    depth@,
                    place@,
                    head as int,
                );
            }
            break ;
        }
        let ghost table = came_from@;
        let ghost placed = place@;
        let ghost queued = frontier@;
        let marks = visit_cell(
            known_cells_full,
            &mut came_from,
            &mut frontier,
            current.coords,
            current.dir,
            Ghost(start),
            depth,
            place,
            Ghost(head as int),
            Ghost((facing, target)),
        );
        depth = marks.0;
        place = marks.1;
        head = head + 1;
        proof {
            lemma_flood_state_facts(cells, start, came_from@, frontier@, depth@, place@);
            assert(frontier@[head - 1] == queued[head - 1]);
            lemma_ranks_advance(
                cells,
                start,
                facing,
                target,
                came_from@,
                frontier@,
                depth@,
                place@,
                head - 1,
                6,
            );
            assert forall|c: Coords, d: Dir|
                came_from@.contains_key(c) && place@[c] < head && #[trigger] open_step(
                    cells,
                    c,
                    d,
                ) implies came_from@.contains_key(c.step(d, 1)) by {
                if table.contains_key(c) {
                    assert(place@[c] == placed[c]);
                    if placed[c] == head - 1 {
                        assert(queued[placed[c]].coords == c);
                        assert(c == current.coords);
                    } else {
                        assert(table.contains_key(c.step(d, 1)));
                    }
                }
            }
            lemma_levels_advance(cells, start, came_from@, frontier@, depth@, place@, head - 1);
        }
    }
    proof {
        lemma_flood_state_facts(cells, start, came_from@, frontier@, depth@, place@);
        assert forall|c: Coords| #[trigger] came_from@.contains_key(c) implies path_back(
            came_from@,
            c,
            start,
            came_from@.dom().len(),
        ) is Some by {
            lemma_depth_reach(cells, start, came_from@, frontier@, depth@, place@, c);
            lemma_depth_leads_back(
                cells,
                start,
                came_from@,
                frontier@,
                depth@,
                place@,
                c,
                came_from@.dom().len(),
            );
        }
        assert forall|dirs: Seq<Dir>| #[trigger]
            walkable(cells, start, dirs) && came_from@.contains_key(end_of(start, dirs)) && end_of(
                start,
                dirs,
            ) != start implies path_back(
            came_from@,
            end_of(start, dirs),
            start,
            came_from@.dom().len(),
        )->0.len() <= dirs.len() by {
            let c = end_of(start, dirs);
            lemma_depth_reach(cells, start, came_from@, frontier@, depth@, place@, c);
            lemma_depth_leads_back(
                cells,
                start,
                came_from@,
                frontier@,
                depth@,
                place@,
                c,
                came_from@.dom().len(),
            );
            lemma_levels_shortest(
                cells,
                start,
                came_from@,
                frontier@,
                depth@,
                place@,
                head as int,
                dirs,
            );
        }
        if reachable(cells, start, target) && !came_from@.contains_key(target) {
            let dirs = choose|dirs: Seq<Dir>| #[trigger]
                walkable(cells, start, dirs) && end_of(start, dirs) == target;
            lemma_closed_holds_ways(cells, start, came_from@, dirs);
        }
    }

    came_from
}

/// The moves that follow a way of records from a robot's facing `dir`: for
/// each record the spin into its direction, then one move forward.
pub open spec fn moves_along(dir: Dir, path: Seq<FromStep>) -> Seq<MoveStep>
    decreases path.len(),
{
    if path.len() == 0 {
        Seq::empty()
    } else {
        let before = path.drop_last();
        let facing = if before.len() == 0 {
            dir
        } else {
            before.last().dir
        };
        moves_along(dir, before) + spin_moves(facing, path.last().dir).push(MoveStep::Forward)
    }
}

/// Convert the path into movement steps; for each node we match orientation and then
/// take a step forward
pub fn path_to_moves(start: CoordsAndDir, path: &Vec<FromStep>) -> (moves: Result<
    Vec<MoveStep>,
    String,
>)
    ensures
        moves is Ok,
        moves->Ok_0@ == moves_along(start.dir, path@),
{
    let mut moves: Vec<MoveStep> = Vec::new();
    let mut current_orientation = start.dir;

    let mut i: usize = 0;
    while i < path.len()
        invariant
            i <= path.len(),
            moves@ == moves_along(start.dir, path@.take(i as int)),
            current_orientation == (if i == 0 {
                start.dir
            } else {
                path@[i - 1].dir
            }),
        decreases path.len() - i,
    {
        let step = path[i];
        let ghost before = moves@;
        let mut spin = find_spin(current_orientation, step.dir);
        moves.append(&mut spin);
        moves.push(MoveStep::Forward);
        current_orientation = step.dir;
        proof {
            let taken = path@.take(i + 1);
            assert(taken.drop_last() =~= path@.take(i as int));
            assert(taken.last() == step);
            assert(moves@ =~= before + spin_moves(
                if i == 0 {
                    start.dir
                } else {
                    path@[i - 1].dir
                },
                step.dir,
            ).push(MoveStep::Forward));
        }
        i = i + 1;
    }
    proof {
        assert(path@.take(path.len() as int) =~= path@);
    }

    Ok(moves)
}

/// Test if a coordinate is reachable from a starting point within a specified number of steps
pub fn is_reachable(
    starting_coords: &Coords,
    target_coords: &Coords,
    known_cells_full: &CoordMap<GridCell>,
    steps: i32,
) -> (found: bool)
    requires
        cells_consistent(known_cells_full@),
    ensures
        found == reachable_within(
            known_cells_full@,
            *starting_coords,
            *target_coords,
            steps as int,
        ),
{
    let ghost cells = known_cells_full@;
    if steps < 0 {
        return false;
    }
    if starting_coords.q == target_coords.q && starting_coords.r == target_coords.r {
        proof {
            let none = Seq::<Dir>::empty();
            assert(walkable(cells, *starting_coords, none));
            assert(end_of(*starting_coords, none) == *target_coords);
        }
        return true;
    }
    // Get a flood map so we know how we would get to each cell
    // Note the starting direction here won't matter since we never convert this to steps
    let came_from = flood_map(starting_coords, &Dir::Orient0, target_coords, known_cells_full);

    // Get the path in FromStep vector
    let path = depth_to_path(&came_from, *target_coords, *starting_coords);
    match path {
        Err(_) => {
            proof {
                if reachable_within(cells, *starting_coords, *target_coords, steps as int) {
                    let dirs = choose|dirs: Seq<Dir>|
                        dirs.len() <= steps && #[trigger] walkable(cells, *starting_coords, dirs)
                            && end_of(*starting_coords, dirs) == *target_coords;
                    assert(reachable(cells, *starting_coords, *target_coords));
                }
            }
            false
        },
        Ok(path) => {
            proof {
                lemma_path_back_walkable(
                    cells,
                    *starting_coords,
                    came_from@,
                    *target_coords,
                    came_from@.dom().len(),
                );
                let dirs = dirs_of(path@);
                assert(walkable(cells, *starting_coords, dirs));
                assert(dirs.len() == path@.len());
                if reachable_within(cells, *starting_coords, *target_coords, steps as int) {
                    let way = choose|way: Seq<Dir>|
                        way.len() <= steps && #[trigger] walkable(cells, *starting_coords, way)
                            && end_of(*starting_coords, way) == *target_coords;
                    assert(path@.len() <= way.len());
                }
            }
            path.len() <= steps as usize
        },
    }
}

/// Whether no way from `a` to `b` within `cells` takes fewer than `n`
/// steps.
pub open spec fn no_way_shorter(cells: Map<Coords, GridCell>, a: Coords, b: Coords, n: int) -> bool {
    forall|dirs: Seq<Dir>| #[trigger] walkable(cells, a, dirs) && end_of(a, dirs) == b ==> n <= dirs.len()
}

/// Whether a list of moves follows some way from `start` to `target` within
/// `cells`, for a robot that faces `facing`: a way than which none takes
/// fewer steps.
pub open spec fn follows_a_way(
    cells: Map<Coords, GridCell>,
    start: Coords,
    facing: Dir,
    target: Coords,
    moves: Seq<MoveStep>,
) -> bool {
    exists|path: Seq<FromStep>| #[trigger]
        walkable(cells, start, dirs_of(path)) && end_of(start, dirs_of(path)) == target && moves
            == moves_along(facing, path) && no_way_shorter(cells, start, target, path.len() as int)
}

/// Whether a list of moves is what the search for a way from `start` to
/// `target` within `cells` comes to, for a robot that faces `facing`: no
/// move where the target is the start, else the moves along the records
/// that lead back from the target through the flood map of the search.
pub open spec fn planned_moves(
    cells: Map<Coords, GridCell>,
    start: Coords,
    facing: Dir,
    target: Coords,
    moves: Seq<MoveStep>,
) -> bool {
    if target == start {
        moves.len() == 0
    } else {
        exists|came_from: Map<Coords, FromStep>, place: Map<Coords, int>| #[trigger]
            flood_order(cells, start, facing, target, came_from, place) && path_back(
                came_from,
                target,
                start,
                came_from.dom().len(),
            ) is Some && moves == moves_along(
                facing,
                path_back(came_from, target, start, came_from.dom().len())->0.reverse(),
            )
    }
}

/// Given a target coordinate, find a path there using only the cells that
/// this robot plans over. A way to the robot's own place takes no moves.
pub fn find_path(robot: &Robot, grid: &Grid, target_coords: Coords, to_robot: bool) -> (moves:
    Result<Vec<MoveStep>, String>)
    requires
        cells_consistent(grid.cells@),
    ensures
        moves is Ok <==> reachable(
            robot.planning_cells(grid, target_coords, to_robot),
            robot.coords(),
            target_coords,
        ),
        moves is Ok ==> follows_a_way(
            robot.planning_cells(grid, target_coords, to_robot),
            robot.coords(),
            robot.data.orientation,
            target_coords,
            moves->Ok_0@,
        ),
        moves is Ok ==> planned_moves(
            robot.planning_cells(grid, target_coords, to_robot),
            robot.coords(),
            robot.data.orientation,
            target_coords,
            moves->Ok_0@,
        ),
{
    let starting_coords = robot.get_coords();
    let known_cells_full = robot.get_planning_cells(grid, &target_coords, to_robot);
    let ghost cells = known_cells_full@;

    if target_coords.q == starting_coords.q && target_coords.r == starting_coords.r {
        proof {
            let none = Seq::<FromStep>::empty();
            assert(dirs_of(none) =~= Seq::<Dir>::empty());
            assert(walkable(cells, starting_coords, dirs_of(none)));
            assert(end_of(starting_coords, dirs_of(none)) == target_coords);
            assert(moves_along(robot.data.orientation, none) =~= Seq::<MoveStep>::empty());
            assert(no_way_shorter(cells, starting_coords, target_coords, 0));
        }
        return Ok(Vec::new());
    }
    // Get a flood map so we know how we would get to each cell

    let came_from = flood_map(
        &starting_coords,
        &robot.data.orientation,
        &target_coords,
        &known_cells_full,
    );

    // Get the path in FromStep vector
    let path = match depth_to_path(&came_from, target_coords, starting_coords) {
        Ok(path) => path,
        Err(reason) => {
            return Err(reason);
        },
    };
    proof {
        lemma_path_back_walkable(
            cells,
            starting_coords,
            came_from@,
            target_coords,
            came_from@.dom().len(),
        );
        assert(dirs_of(path@).len() == path@.len());
        assert(no_way_shorter(cells, starting_coords, target_coords, path@.len() as int));
    }

    path_to_moves(CoordsAndDir { coords: starting_coords, dir: robot.data.orientation }, &path)
}

/// Whether a robot may take a position for a goal: any position where
/// `reachable_only` is not set, else one to which the robot can plan a way.
pub open spec fn is_goal(robot: &Robot, grid: &Grid, reachable_only: bool) -> spec_fn(
    Coords,
) -> bool {
    |c: Coords|
        !reachable_only || reachable(robot.planning_cells(grid, c, false), robot.coords(), c)
}

/// The place in a list of the first `n` positions' nearest to `from`: the
/// first of the nearest, where several are as near.
pub open spec fn nearest_among(coords: Seq<Coords>, from: Coords, n: int) -> int
    decreases n,
{
    if n <= 1 {
        0
    } else {
        let best = nearest_among(coords, from, n - 1);
        if from.distance(coords[n - 1]) < from.distance(coords[best]) {
            n - 1
        } else {
            best
        }
    }
}

/// The place in a list of the first `n` positions' farthest from `from`: the
/// first of the farthest, where several are as far.
pub open spec fn farthest_among(coords: Seq<Coords>, from: Coords, n: int) -> int
    decreases n,
{
    if n <= 1 {
        0
    } else {
        let best = farthest_among(coords, from, n - 1);
        if from.distance(coords[n - 1]) > from.distance(coords[best]) {
            n - 1
        } else {
            best
        }
    }
}

/// The position nearest to the robot among those of a list that the robot
/// may take for a goal: the first of the nearest, and none where the list
/// holds no goal.
pub open spec fn closest_goal(
    robot: &Robot,
    grid: &Grid,
    coords: Seq<Coords>,
    reachable_only: bool,
) -> Option<Coords> {
    let goals = coords.filter(is_goal(robot, grid, reachable_only));
    if goals.len() == 0 {
        None
    } else {
        Some(goals[nearest_among(goals, robot.coords(), goals.len() as int)])
    }
}

/// The position farthest from `origin` among those of a list that the robot
/// may take for a goal: the first of the farthest, and none where the list
/// holds no goal.
pub open spec fn farthest_goal(
    robot: &Robot,
    grid: &Grid,
    coords: Seq<Coords>,
    reachable_only: bool,
    origin: Coords,
) -> Option<Coords> {
    let goals = coords.filter(is_goal(robot, grid, reachable_only));
    if goals.len() == 0 {
        None
    } else {
        Some(goals[farthest_among(goals, origin, goals.len() as int)])
    }
}

/// The nearest of a list's positions has its place in the list, and none of
/// the list is nearer.
pub proof fn lemma_nearest_among(coords: Seq<Coords>, from: Coords, n: int)
    requires
        1 <= n <= coords.len(),
    ensures
        0 <= nearest_among(coords, from, n) < n,
        forall|k: int|
            0 <= k < n ==> from.distance(coords[nearest_among(coords, from, n)]) <= from.distance(
                #[trigger] coords[k],
            ),
    decreases n,
{
    if n > 1 {
        lemma_nearest_among(coords, from, n - 1);
    }
}

/// The farthest of a list's positions has its place in the list, and none
/// of the list is farther.
pub proof fn lemma_farthest_among(coords: Seq<Coords>, from: Coords, n: int)
    requires
        1 <= n <= coords.len(),
    ensures
        0 <= farthest_among(coords, from, n) < n,
        forall|k: int|
            0 <= k < n ==> from.distance(coords[farthest_among(coords, from, n)])
                >= from.distance(#[trigger] coords[k]),
    decreases n,
{
    if n > 1 {
        lemma_farthest_among(coords, from, n - 1);
    }
}

/// The positions of a list that the robot may take for a goal, in the order
/// of the list.
pub fn goals_among(robot: &Robot, grid: &Grid, coords: &Vec<Coords>, reachable_only: bool) -> (goals:
    Vec<Coords>)
    requires
        cells_consistent(grid.cells@),
    ensures
        goals@ == coords@.filter(is_goal(robot, grid, reachable_only)),
{
    let mut goals: Vec<Coords> = Vec::new();
    let mut i: usize = 0;
    proof {
        assert(coords@.take(0).filter(is_goal(robot, grid, reachable_only)) =~= Seq::<
            Coords,
        >::empty());
    }
    while i < coords.len()
        invariant
            i <= coords.len(),
            cells_consistent(grid.cells@),
            goals@ == coords@.take(i as int).filter(is_goal(robot, grid, reachable_only)),
        decreases coords.len() - i,
    {
        let c = coords[i];
        proof {
            coords@.lemma_take_succ_push(i as int);
            coords@.take(i as int).lemma_filter_push(c, is_goal(robot, grid, reachable_only));
        }
        let keep = if reachable_only {
            find_path(robot, grid, c, false).is_ok()
        } else {
            true
        };
        if keep {
            goals.push(c);
        }
        i = i + 1;
    }
    proof {
        coords@.lemma_take_len();
    }
    goals
}

/// Find the position nearest to the robot among those of a list that the
/// robot may take for a goal: the first of the nearest, and none where the
/// list holds no goal.
pub fn find_closest_coords(
    robot: &Robot,
    grid: &Grid,
    coords: Vec<Coords>,
    reachable_only: bool,
) -> (closest: Option<Coords>)
    requires
        cells_consistent(grid.cells@),
    ensures
        closest == closest_goal(robot, grid, coords@, reachable_only),
{
    let goals = goals_among(robot, grid, &coords, reachable_only);
    if goals.len() == 0 {
        return None;
    }
    let me = robot.get_coords();
    let mut best: usize = 0;
    let mut k: usize = 1;
    while k < goals.len()
        invariant
            1 <= k <= goals.len(),
            0 <= best < k,
            best == nearest_among(goals@, me, k as int),
        decreases goals.len() - k,
    {
        if me.wide_distance_to(&goals[k]) < me.wide_distance_to(&goals[best]) {
            best = k;
        }
        k = k + 1;
    }
    Some(goals[best])
}

/// Find the position farthest from `from`, or from the robot where `from`
/// is not given, among those of a list that the robot may take for a goal:
/// the first of the farthest, and none where the list holds no goal.
pub fn find_farthest_coords(
    robot: &Robot,
    grid: &Grid,
    coords: Vec<Coords>,
    reachable_only: bool,
    from: Option<&Coords>,
) -> (farthest: Option<Coords>)
    requires
        cells_consistent(grid.cells@),
    ensures
        farthest == farthest_goal(
            robot,
            grid,
            coords@,
            reachable_only,
            match from {
                Some(c) => *c,
                None => robot.coords(),
            },
        ),
{
    let goals = goals_among(robot, grid, &coords, reachable_only);
    if goals.len() == 0 {
        return None;
    }
    let origin = match from {
        Some(c) => *c,
        None => robot.get_coords(),
    };
    let mut best: usize = 0;
    let mut k: usize = 1;
    while k < goals.len()
        invariant
            1 <= k <= goals.len(),
            0 <= best < k,
            best == farthest_among(goals@, origin, k as int),
        decreases goals.len() - k,
    {
        if origin.wide_distance_to(&goals[k]) > origin.wide_distance_to(&goals[best]) {
            best = k;
        }
        k = k + 1;
    }
    Some(goals[best])
}

} // verus!
