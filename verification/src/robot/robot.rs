//! A robot: its position and energy, its modules, the cells it remembers
//! and what it saw in its last scan.

use vstd::prelude::*;
use vstd::string::{StrSliceExecFns, StringExecFns};

use crate::grid::coord_map::CoordMap;
use crate::grid::coords::{Coords, CoordsAndDir, Dir};
use crate::grid::edge::EdgeType;
use crate::grid::grid::{cells_consistent, lemma_step_near, within_limit, Grid, GridCell};
use crate::grid::utils::traversal::MoveStep;
use crate::robot::modules::collector::{collection_max, CollectorModule};
use crate::robot::modules::exfilbeacon::{exfil_delay, ExfilBeaconModule};
use crate::robot::modules::hull::{hull_max_strength, HullModule};
use crate::robot::modules::memory::{memory_size, MemoryModule};
use crate::robot::modules::power::{max_power, recharge_rate, PowerModule};
use crate::robot::process::scan::{VisibleRobot, VisibleValuable};
use crate::robot::process::{ProcessResult, Processes};
use crate::utils::{decimal_text, is_alphanumeric, number_text, random_string, same_name};

verus! {

/// What a robot is and where: its place, its energy, its hull and its load.
#[derive(Clone, Debug)]
pub struct RobotData {
    pub id: i64,
    pub name: String,
    pub owner: Option<i32>,
    pub affiliation: Option<i32>,
    pub q: i32,
    pub r: i32,
    pub orientation: Dir,
    pub power: i32,
    pub max_power: i32,
    pub recharge_rate: i32,
    pub hull_strength: i32,
    pub max_hull_strength: i32,
    pub mined_amount: i32,
    pub val_inventory: i32,
    pub max_val_inventory: i32,
    pub exfil_countdown: i32,
    pub hibernate_countdown: i32,
    pub status_text: String,
    pub pursuit_id: i64,
    pub pursuit_last_q: i32,
    pub pursuit_last_r: i32,
    pub attacked_from: i32,
    pub attacked_by: i64,
    pub attacked: i64,
    pub damage_done: i32,
}

/// Represents a grid cell that is known by a robot
#[derive(Clone, Copy, Debug, PartialEq, Eq, Structural)]
pub struct RobotKnownCell {
    pub robot_id: i64,
    pub gridcell_id: i32,
    /// When the robot last saw the cell, by the robot's own count of
    /// sightings.
    pub discovery_time: u64,
    pub q: i32,
    pub r: i32,
}

impl RobotKnownCell {
    /// Where the cell lies.
    pub open spec fn coords(self) -> Coords {
        Coords { q: self.q, r: self.r }
    }
}

/// Represents the modules loaded for this robot
#[derive(Clone, Debug)]
pub struct RobotModules {
    pub robot_id: i64,
    pub m_collector: String,
    pub m_drivesystem: String,
    pub m_exfilbeacon: String,
    pub m_hull: String,
    pub m_memory: String,
    pub m_power: String,
    pub m_scanner: String,
    pub m_weapons: String,
}

/// The kind of module that a list of choices names for the family `key`:
/// the last choice made for that family, or the basic kind where none was
/// made.
pub open spec fn module_choice(choices: Seq<(String, String)>, key: Seq<char>) -> Seq<char>
    decreases choices.len(),
{
    if choices.len() == 0 {
        "basic"@
    } else if choices.last().0@ == key {
        choices.last().1@
    } else {
        module_choice(choices.drop_last(), key)
    }
}

impl RobotModules {
    /// Whether `other` names the same modules for the same robot.
    pub open spec fn same_as(&self, other: &RobotModules) -> bool {
        &&& other.robot_id == self.robot_id
        &&& other.m_collector@ == self.m_collector@
        &&& other.m_drivesystem@ == self.m_drivesystem@
        &&& other.m_exfilbeacon@ == self.m_exfilbeacon@
        &&& other.m_hull@ == self.m_hull@
        &&& other.m_memory@ == self.m_memory@
        &&& other.m_power@ == self.m_power@
        &&& other.m_scanner@ == self.m_scanner@
        &&& other.m_weapons@ == self.m_weapons@
    }

    /// A copy of the modules as they are.
    pub fn snapshot(&self) -> (copy: RobotModules)
        ensures
            self.same_as(&copy),
    {
        RobotModules {
            robot_id: self.robot_id,
            m_collector: self.m_collector.clone(),
            m_drivesystem: self.m_drivesystem.clone(),
            m_exfilbeacon: self.m_exfilbeacon.clone(),
            m_hull: self.m_hull.clone(),
            m_memory: self.m_memory.clone(),
            m_power: self.m_power.clone(),
            m_scanner: self.m_scanner.clone(),
            m_weapons: self.m_weapons.clone(),
        }
    }

    /// Whether these are the modules that a list of choices names.
    pub open spec fn chosen_from(&self, choices: Seq<(String, String)>) -> bool {
        &&& self.m_collector@ == module_choice(choices, "m_collector"@)
        &&& self.m_drivesystem@ == module_choice(choices, "m_drivesystem"@)
        &&& self.m_exfilbeacon@ == module_choice(choices, "m_exfilbeacon"@)
        &&& self.m_hull@ == module_choice(choices, "m_hull"@)
        &&& self.m_memory@ == module_choice(choices, "m_memory"@)
        &&& self.m_power@ == module_choice(choices, "m_power"@)
        &&& self.m_scanner@ == module_choice(choices, "m_scanner"@)
        &&& self.m_weapons@ == module_choice(choices, "m_weapon"@)
    }

    /// Create a new robot modules struct: basic modules all round, but for
    /// the families that `modmap` names a kind for.
    pub fn new(robot_id: i64, modmap: Option<Vec<(String, String)>>) -> (modules: RobotModules)
        ensures
            modules.robot_id == robot_id,
            modules.chosen_from(
                match modmap {
                    Some(choices) => choices@,
                    None => Seq::empty(),
                },
            ),
    {
        let mut modules = RobotModules {
            robot_id,
            m_collector: String::from_str("basic"),
            m_drivesystem: String::from_str("basic"),
            m_exfilbeacon: String::from_str("basic"),
            m_hull: String::from_str("basic"),
            m_memory: String::from_str("basic"),
            m_power: String::from_str("basic"),
            m_scanner: String::from_str("basic"),
            m_weapons: String::from_str("basic"),
        };

        if let Some(choices) = modmap {
            let mut i: usize = 0;
            while i < choices.len()
                invariant
                    i <= choices.len(),
                    modules.robot_id == robot_id,
                    modules.chosen_from(choices@.take(i as int)),
                decreases choices.len() - i,
            {
                let key = choices[i].0.as_str();
                let val = &choices[i].1;
                proof {
                    assert(choices@.take(i + 1).drop_last() =~= choices@.take(i as int));
                    assert(choices@.take(i + 1).last() == choices@[i as int]);
                }
                if same_name(key, "m_collector") {
                    modules.m_collector = val.clone();
                } else if same_name(key, "m_drivesystem") {
                    modules.m_drivesystem = val.clone();
                } else if same_name(key, "m_exfilbeacon") {
                    modules.m_exfilbeacon = val.clone();
                } else if same_name(key, "m_hull") {
                    modules.m_hull = val.clone();
                } else if same_name(key, "m_memory") {
                    modules.m_memory = val.clone();
                } else if same_name(key, "m_power") {
                    modules.m_power = val.clone();
                } else if same_name(key, "m_scanner") {
                    modules.m_scanner = val.clone();
                } else if same_name(key, "m_weapon") {
                    modules.m_weapons = val.clone();
                }
                proof {
                    lemma_keys_differ();
                }
                i = i + 1;
            }
            proof {
                assert(choices@.take(choices.len() as int) =~= choices@);
            }
        }
        modules
    }
}

/// The names of the eight families of modules differ from one another.
proof fn lemma_keys_differ()
    ensures
        "m_collector"@.len() == 11,
        "m_collector"@[2] == 'c',
        "m_drivesystem"@.len() == 13,
        "m_exfilbeacon"@.len() == 13,
        "m_drivesystem"@[2] == 'd',
        "m_exfilbeacon"@[2] == 'e',
        "m_hull"@.len() == 6,
        "m_hull"@[2] == 'h',
        "m_memory"@.len() == 8,
        "m_memory"@[2] == 'm',
        "m_power"@.len() == 7,
        "m_power"@[2] == 'p',
        "m_scanner"@.len() == 9,
        "m_scanner"@[2] == 's',
        "m_weapon"@.len() == 8,
        "m_weapon"@[2] == 'w',
{
    reveal_strlit("m_collector");
    reveal_strlit("m_drivesystem");
    reveal_strlit("m_exfilbeacon");
    reveal_strlit("m_hull");
    reveal_strlit("m_memory");
    reveal_strlit("m_power");
    reveal_strlit("m_scanner");
    reveal_strlit("m_weapon");
}

/// Where the first `lines` lines of a text end: at the line break that ends
/// the last of them, or at the end of the text where it has no more lines.
/// The search stands at `from` and has passed `seen` line breaks.
pub open spec fn line_break(s: Seq<char>, from: int, seen: int, lines: int) -> int
    decreases s.len() - from,
{
    if from >= s.len() {
        s.len() as int
    } else if s[from] == '\n' {
        if seen + 1 >= lines {
            from
        } else {
            line_break(s, from + 1, seen + 1, lines)
        }
    } else {
        line_break(s, from + 1, seen, lines)
    }
}

/// The first `lines` lines of a text.
pub open spec fn first_lines(s: Seq<char>, lines: int) -> Seq<char> {
    s.take(line_break(s, 0, 0, lines))
}

/// A status text after a new status is put on top: the new line, then the
/// four newest lines of the text before.
pub open spec fn status_after(before: Seq<char>, status: Seq<char>) -> Seq<char> {
    status + seq!['\n'] + first_lines(before, 4)
}

/// The status of a robot that moves to a position.
pub open spec fn moving_text(c: Coords) -> Seq<char> {
    "I'm moving to "@ + decimal_text(c.q as int) + ","@ + decimal_text(c.r as int) + "."@
}

/// The status of a robot that flees to a position.
pub open spec fn fleeing_text(c: Coords) -> Seq<char> {
    "I'm fleeing to "@ + decimal_text(c.q as int) + ","@ + decimal_text(c.r as int) + "!"@
}

/// A position as a status names it.
pub open spec fn coords_text(c: Coords) -> Seq<char> {
    "Coords { q: "@ + decimal_text(c.q as int) + ", r: "@ + decimal_text(c.r as int) + " }"@
}

/// A direction as a status names it.
pub open spec fn dir_text(d: Dir) -> Seq<char> {
    match d {
        Dir::Orient0 => "Orient0"@,
        Dir::Orient60 => "Orient60"@,
        Dir::Orient120 => "Orient120"@,
        Dir::Orient180 => "Orient180"@,
        Dir::Orient240 => "Orient240"@,
        Dir::Orient300 => "Orient300"@,
    }
}

/// Writes a text, a number and a text one after the other.
pub fn text_with_number(before: &str, n: i64, after: &str) -> (s: String)
    ensures
        s@ == before@ + decimal_text(n as int) + after@,
{
    let mut s = String::from_str(before);
    let number = number_text(n);
    s.append(number.as_str());
    s.append(after);
    s
}

/// Writes the status of a robot that moves to a position.
pub fn moving_status(c: Coords) -> (s: String)
    ensures
        s@ == moving_text(c),
{
    let mut s = text_with_number("I'm moving to ", c.q as i64, ",");
    let tail = text_with_number("", c.r as i64, ".");
    s.append(tail.as_str());
    proof {
        reveal_strlit("");
        assert(s@ =~= moving_text(c));
    }
    s
}

/// Writes the status of a robot that flees to a position.
pub fn fleeing_status(c: Coords) -> (s: String)
    ensures
        s@ == fleeing_text(c),
{
    let mut s = text_with_number("I'm fleeing to ", c.q as i64, ",");
    let tail = text_with_number("", c.r as i64, "!");
    s.append(tail.as_str());
    proof {
        reveal_strlit("");
        assert(s@ =~= fleeing_text(c));
    }
    s
}

/// Writes a position as a status names it.
pub fn coords_status(c: Coords) -> (s: String)
    ensures
        s@ == coords_text(c),
{
    let mut s = text_with_number("Coords { q: ", c.q as i64, ", r: ");
    let tail = text_with_number("", c.r as i64, " }");
    s.append(tail.as_str());
    proof {
        reveal_strlit("");
        assert(s@ =~= coords_text(c));
    }
    s
}

/// The name of a direction as a status names it.
pub fn dir_status(d: Dir) -> (s: &'static str)
    ensures
        s@ == dir_text(d),
{
    match d {
        Dir::Orient0 => "Orient0",
        Dir::Orient60 => "Orient60",
        Dir::Orient120 => "Orient120",
        Dir::Orient180 => "Orient180",
        Dir::Orient240 => "Orient240",
        Dir::Orient300 => "Orient300",
    }
}

/// A copy of a list.
pub fn copy_list<T: Copy>(items: &Vec<T>) -> (copy: Vec<T>)
    ensures
        copy@ == items@,
{
    let mut copy: Vec<T> = Vec::new();
    let mut i: usize = 0;
    while i < items.len()
        invariant
            i <= items.len(),
            copy@ == items@.take(i as int),
        decreases items.len() - i,
    {
        copy.push(items[i]);
        proof {
            assert(items@.take(i + 1) =~= items@.take(i as int).push(items@[i as int]));
        }
        i = i + 1;
    }
    proof {
        assert(items@.take(items.len() as int) =~= items@);
    }
    copy
}

impl RobotData {
    /// Whether `other` says of a robot what these data say.
    pub open spec fn same_as(&self, other: &RobotData) -> bool {
        &&& other.id == self.id
        &&& other.name@ == self.name@
        &&& other.owner == self.owner
        &&& other.affiliation == self.affiliation
        &&& other.q == self.q
        &&& other.r == self.r
        &&& other.orientation == self.orientation
        &&& other.power == self.power
        &&& other.max_power == self.max_power
        &&& other.recharge_rate == self.recharge_rate
        &&& other.hull_strength == self.hull_strength
        &&& other.max_hull_strength == self.max_hull_strength
        &&& other.mined_amount == self.mined_amount
        &&& other.val_inventory == self.val_inventory
        &&& other.max_val_inventory == self.max_val_inventory
        &&& other.exfil_countdown == self.exfil_countdown
        &&& other.hibernate_countdown == self.hibernate_countdown
        &&& other.status_text@ == self.status_text@
        &&& other.pursuit_id == self.pursuit_id
        &&& other.pursuit_last_q == self.pursuit_last_q
        &&& other.pursuit_last_r == self.pursuit_last_r
        &&& other.attacked_from == self.attacked_from
        &&& other.attacked_by == self.attacked_by
        &&& other.attacked == self.attacked
        &&& other.damage_done == self.damage_done
    }

    /// A copy of the data as they are.
    pub fn snapshot(&self) -> (copy: RobotData)
        ensures
            self.same_as(&copy),
    {
        RobotData {
            id: self.id,
            name: self.name.clone(),
            owner: self.owner,
            affiliation: self.affiliation,
            q: self.q,
            r: self.r,
            orientation: self.orientation,
            power: self.power,
            max_power: self.max_power,
            recharge_rate: self.recharge_rate,
            hull_strength: self.hull_strength,
            max_hull_strength: self.max_hull_strength,
            mined_amount: self.mined_amount,
            val_inventory: self.val_inventory,
            max_val_inventory: self.max_val_inventory,
            exfil_countdown: self.exfil_countdown,
            hibernate_countdown: self.hibernate_countdown,
            status_text: self.status_text.clone(),
            pursuit_id: self.pursuit_id,
            pursuit_last_q: self.pursuit_last_q,
            pursuit_last_r: self.pursuit_last_r,
            attacked_from: self.attacked_from,
            attacked_by: self.attacked_by,
            attacked: self.attacked,
            damage_done: self.damage_done,
        }
    }
}

/// A robot of the simulation.
#[derive(Clone, Debug)]
pub struct Robot {
    pub data: RobotData,
    pub known_cells: Vec<RobotKnownCell>,
    pub visible_others: Vec<VisibleRobot>,
    pub visible_valuables: Vec<VisibleValuable>,
    pub active_process: Option<Processes>,
    pub movement_queue: Option<Vec<MoveStep>>,
    pub modules: RobotModules,
    /// How many sightings of cells the robot has counted: the stamp that the
    /// next cell it sees gets.
    pub clock: u64,
}

/// The place of the oldest among the first `n` cells of a list: of the one
/// that was seen before all others, the first of these where several were
/// seen at the same time.
pub open spec fn oldest_among(cells: Seq<RobotKnownCell>, n: int) -> int
    decreases n,
{
    if n <= 1 {
        0
    } else {
        let best = oldest_among(cells, n - 1);
        if cells[n - 1].discovery_time < cells[best].discovery_time {
            n - 1
        } else {
            best
        }
    }
}

/// A list of known cells cut down to `limit` cells: while it is longer, the
/// oldest cell leaves.
pub open spec fn limited(cells: Seq<RobotKnownCell>, limit: int) -> Seq<RobotKnownCell>
    decreases cells.len(),
{
    let oldest = oldest_among(cells, cells.len() as int);
    if cells.len() <= limit || !(0 <= oldest < cells.len()) {
        cells
    } else {
        limited(cells.remove(oldest), limit)
    }
}

/// The oldest of a list's cells has its place in the list.
pub proof fn lemma_oldest_among(cells: Seq<RobotKnownCell>, n: int)
    requires
        1 <= n <= cells.len(),
    ensures
        0 <= oldest_among(cells, n) < n,
        forall|k: int|
            0 <= k < n ==> cells[oldest_among(cells, n)].discovery_time
                <= (#[trigger] cells[k]).discovery_time,
    decreases n,
{
    if n > 1 {
        lemma_oldest_among(cells, n - 1);
    }
}

/// A list cut down to a limit is no longer than the limit, and no longer
/// than it was.
pub proof fn lemma_limited_len(cells: Seq<RobotKnownCell>, limit: int)
    requires
        limit >= 0,
    ensures
        limited(cells, limit).len() == (if cells.len() <= limit {
            cells.len() as int
        } else {
            limit
        }),
    decreases cells.len(),
{
    if cells.len() > limit {
        lemma_oldest_among(cells, cells.len() as int);
        lemma_limited_len(cells.remove(oldest_among(cells, cells.len() as int)), limit);
    }
}

/// Whether one of the cells of `fresh` is the cell `cell` seen again: a cell
/// of the same robot with the same id.
pub open spec fn seen_again(fresh: Seq<RobotKnownCell>, cell: RobotKnownCell) -> bool {
    exists|j: int|
        0 <= j < fresh.len() && (#[trigger] fresh[j]).robot_id == cell.robot_id
            && fresh[j].gridcell_id == cell.gridcell_id
}

/// Whether a known cell is not among the cells of `fresh`.
pub open spec fn not_seen_again(fresh: Seq<RobotKnownCell>) -> spec_fn(RobotKnownCell) -> bool {
    |cell: RobotKnownCell| !seen_again(fresh, cell)
}

/// The known cells after a scan: the cells that the scan did not see again,
/// then the cells that it saw.
pub open spec fn merged_cells(known: Seq<RobotKnownCell>, fresh: Seq<RobotKnownCell>) -> Seq<
    RobotKnownCell,
> {
    known.filter(not_seen_again(fresh)) + fresh
}

/// Whether a list of known cells names the position `c`.
pub open spec fn knows(known: Seq<RobotKnownCell>, c: Coords) -> bool {
    exists|i: int| 0 <= i < known.len() && (#[trigger] known[i]).coords() == c
}

/// Whether one of the robots of `others` stands at `c`.
pub open spec fn seen_at(others: Seq<VisibleRobot>, c: Coords) -> bool {
    exists|j: int| 0 <= j < others.len() && (#[trigger] others[j]).coords == c
}

/// The cells of the grid that a robot knows.
pub open spec fn known_map(known: Seq<RobotKnownCell>, cells: Map<Coords, GridCell>) -> Map<
    Coords,
    GridCell,
> {
    Map::new(|c: Coords| cells.contains_key(c) && knows(known, c), |c: Coords| cells[c])
}

/// The cells of the grid that a robot at `me` knows and on which it saw no
/// other robot.
pub open spec fn known_free_map(
    known: Seq<RobotKnownCell>,
    others: Seq<VisibleRobot>,
    me: Coords,
    cells: Map<Coords, GridCell>,
) -> Map<Coords, GridCell> {
    Map::new(
        |c: Coords| cells.contains_key(c) && knows(known, c) && !(seen_at(others, c) && c != me),
        |c: Coords| cells[c],
    )
}

/// One more known cell adds its position to the positions known.
pub proof fn lemma_knows_push(known: Seq<RobotKnownCell>, cell: RobotKnownCell, c: Coords)
    ensures
        knows(known.push(cell), c) == (knows(known, c) || cell.coords() == c),
{
    let more = known.push(cell);
    if knows(known, c) {
        let i = choose|i: int| 0 <= i < known.len() && (#[trigger] known[i]).coords() == c;
        assert(more[i].coords() == c);
    }
    if cell.coords() == c {
        assert(more[known.len() as int].coords() == c);
    }
    if knows(more, c) {
        let i = choose|i: int| 0 <= i < more.len() && (#[trigger] more[i]).coords() == c;
        if i < known.len() {
            assert(known[i].coords() == c);
        }
    }
}

/// The cells over which a robot at `me` plans a way to `target`: the cells
/// that it knows and on which it saw no other robot, and, where the way is
/// to lead to another robot, the known cell on which that robot stands.
pub open spec fn planning_map(
    known: Seq<RobotKnownCell>,
    others: Seq<VisibleRobot>,
    me: Coords,
    cells: Map<Coords, GridCell>,
    target: Coords,
    to_robot: bool,
) -> Map<Coords, GridCell> {
    let free = known_free_map(known, others, me, cells);
    if to_robot && cells.contains_key(target) && knows(known, target) {
        free.insert(target, cells[target])
    } else {
        free
    }
}

impl Robot {
    /// Where the robot stands.
    pub open spec fn coords(&self) -> Coords {
        Coords { q: self.data.q, r: self.data.r }
    }

    /// How many cells the robot's memory holds.
    pub open spec fn memory_limit(&self) -> int {
        memory_size(self.modules.m_memory@)
    }

    /// What holds of a robot in every state: its power lies between nothing
    /// and the most it can hold, it carries no more than it can, and what it
    /// has mined in one run is part of what it carries; its limits are those
    /// of its modules; it knows no more cells than its memory holds; and it
    /// stands within the range that grids use.
    pub open spec fn wf(&self) -> bool {
        &&& 0 <= self.data.power <= self.data.max_power
        &&& self.data.max_power == max_power(self.modules.m_power@)
        &&& self.data.recharge_rate == recharge_rate(self.modules.m_power@)
        &&& 0 <= self.data.mined_amount <= self.data.val_inventory
        &&& self.data.val_inventory <= self.data.max_val_inventory
        &&& self.data.max_val_inventory == collection_max(self.modules.m_collector@)
        &&& self.known_cells@.len() <= self.memory_limit()
        &&& within_limit(self.coords())
    }

    /// Whether `other` is this robot as far as no behaviour changes a
    /// robot: in who it is, in what its modules allow, in its hull and its
    /// load, and in what it knows of attacks.
    pub open spec fn steady(&self, other: &Robot) -> bool {
        &&& other.modules == self.modules
        &&& other.data.id == self.data.id
        &&& other.data.name == self.data.name
        &&& other.data.owner == self.data.owner
        &&& other.data.affiliation == self.data.affiliation
        &&& other.data.max_power == self.data.max_power
        &&& other.data.recharge_rate == self.data.recharge_rate
        &&& other.data.hull_strength == self.data.hull_strength
        &&& other.data.max_hull_strength == self.data.max_hull_strength
        &&& other.data.val_inventory == self.data.val_inventory
        &&& other.data.max_val_inventory == self.data.max_val_inventory
        &&& other.data.hibernate_countdown == self.data.hibernate_countdown
        &&& other.data.attacked_from == self.data.attacked_from
        &&& other.data.attacked_by == self.data.attacked_by
        &&& other.data.attacked == self.data.attacked
        &&& other.data.damage_done == self.data.damage_done
    }

    /// Whether `other` is in the state that this robot is in.
    pub open spec fn same_as(&self, other: &Robot) -> bool {
        &&& self.data.same_as(&other.data)
        &&& self.modules.same_as(&other.modules)
        &&& other.known_cells@ == self.known_cells@
        &&& other.visible_others@ == self.visible_others@
        &&& other.visible_valuables@ == self.visible_valuables@
        &&& other.active_process == self.active_process
        &&& (match self.movement_queue {
            Some(queue) => other.movement_queue is Some && other.movement_queue->0@ == queue@,
            None => other.movement_queue is None,
        })
        &&& other.clock == self.clock
    }

    /// A copy of the robot as it is.
    pub fn snapshot(&self) -> (copy: Robot)
        ensures
            self.same_as(&copy),
            self.wf() ==> copy.wf(),
    {
        Robot {
            data: self.data.snapshot(),
            known_cells: copy_list(&self.known_cells),
            visible_others: copy_list(&self.visible_others),
            visible_valuables: copy_list(&self.visible_valuables),
            active_process: self.active_process,
            movement_queue: match &self.movement_queue {
                Some(queue) => Some(copy_list(queue)),
                None => None,
            },
            modules: self.modules.snapshot(),
            clock: self.clock,
        }
    }

    /// Whether the robot is in a state that robots can be in.
    pub fn is_well_formed(&self) -> (ok: bool)
        ensures
            ok == self.wf(),
    {
        let limit = crate::grid::grid::COORD_LIMIT;
        0 <= self.data.power && self.data.power <= self.data.max_power && self.data.max_power
            == PowerModule::get_max_power(self.modules.m_power.as_str())
            && self.data.recharge_rate == PowerModule::get_recharge_rate(
            self.modules.m_power.as_str(),
        ) && 0 <= self.data.mined_amount && self.data.mined_amount <= self.data.val_inventory
            && self.data.val_inventory <= self.data.max_val_inventory
            && self.data.max_val_inventory == CollectorModule::get_collection_max(
            self.modules.m_collector.as_str(),
        ) && self.known_cells.len() <= MemoryModule::get_memory_size(
            self.modules.m_memory.as_str(),
        ) && -limit <= self.data.q && self.data.q <= limit && -limit <= self.data.r && self.data.r
            <= limit
    }

    /// What a robot's tick does to the index of robots: nothing where the
    /// robot stays; where it moves, it moves onto a cell on which no robot
    /// stands, and the index has it there afterwards if it had it at its
    /// place before. The record of strengths stays.
    pub open spec fn stepped(&self, after: &Robot, grid_before: &Grid, grid_after: &Grid) -> bool {
        let me = self.coords();
        let to = after.coords();
        &&& grid_after.robot_strengths@ == grid_before.robot_strengths@
        &&& if to == me {
            grid_after.robot_locs@ == grid_before.robot_locs@
        } else {
            &&& !grid_before.robot_locs@.contains_key(to)
            &&& if grid_before.robot_position(self.data.id) == Some(me) {
                grid_after.robot_locs@ == grid_before.robot_locs@.remove(me).insert(
                    to,
                    self.data.id,
                )
            } else {
                grid_after.robot_locs@ == grid_before.robot_locs@
            }
        }
    }

    /// This robot with other data.
    pub open spec fn with_data(&self, data: RobotData) -> Robot {
        Robot { data: data, ..*self }
    }

    /// Whether this is a robot as it is made, with the given id, at the
    /// given place, with the given facing and with the modules that a list
    /// of choices names: its power and its hull are whole, it carries
    /// nothing, it knows nothing of the grid, and it follows no behaviour
    /// yet. Its name is made of eight letters and digits.
    pub open spec fn newly_made(
        &self,
        id: i64,
        coords: Coords,
        orientation: Dir,
        choices: Seq<(String, String)>,
    ) -> bool {
        &&& self.modules.robot_id == id
        &&& self.modules.chosen_from(choices)
        &&& self.data.name@.len() == 8
        &&& forall|i: int| 0 <= i < 8 ==> is_alphanumeric(#[trigger] self.data.name@[i])
        &&& self.data.status_text@ == "I'm ready to work!"@
        &&& self.data == (RobotData {
            id: id,
            name: self.data.name,
            owner: None,
            affiliation: None,
            q: coords.q,
            r: coords.r,
            orientation: orientation,
            power: max_power(self.modules.m_power@) as i32,
            max_power: max_power(self.modules.m_power@) as i32,
            recharge_rate: recharge_rate(self.modules.m_power@) as i32,
            hull_strength: hull_max_strength(self.modules.m_hull@) as i32,
            max_hull_strength: hull_max_strength(self.modules.m_hull@) as i32,
            mined_amount: 0,
            val_inventory: 0,
            max_val_inventory: collection_max(self.modules.m_collector@) as i32,
            exfil_countdown: -1i32,
            hibernate_countdown: -1i32,
            status_text: self.data.status_text,
            pursuit_id: -1i64,
            pursuit_last_q: -1i32,
            pursuit_last_r: -1i32,
            attacked_from: -1i32,
            attacked_by: -1i64,
            attacked: -1i64,
            damage_done: -1i32,
        })
        &&& self.known_cells@.len() == 0
        &&& self.visible_others@.len() == 0
        &&& self.visible_valuables@.len() == 0
        &&& self.active_process is None
        &&& self.movement_queue is None
        &&& self.clock == 0
    }

    /// Create a new robot at the specified coordinates with the specified orientation
    pub fn new(
        id: i64,
        coords: Coords,
        orientation: Dir,
        modules: Option<Vec<(String, String)>>,
    ) -> (robot: Robot)
        ensures
            within_limit(coords) ==> robot.wf(),
            robot.newly_made(
                id,
                coords,
                orientation,
                match modules {
                    Some(choices) => choices@,
                    None => Seq::empty(),
                },
            ),
    {
        let data = RobotData {
            id: id,
            name: random_string(8),
            owner: None,
            affiliation: None,
            q: coords.q,
            r: coords.r,
            orientation,
            power: 0,
            max_power: 0,
            recharge_rate: 0,
            hull_strength: 0,
            max_hull_strength: 0,
            mined_amount: 0,
            val_inventory: 0,
            max_val_inventory: 0,
            exfil_countdown: -1,
            hibernate_countdown: -1,
            status_text: String::from_str("I'm ready to work!"),
            pursuit_id: -1,
            pursuit_last_q: -1,
            pursuit_last_r: -1,
            attacked_from: -1,
            attacked_by: -1,
            attacked: -1,
            damage_done: -1,
        };

        let modules = RobotModules::new(id, modules);

        let mut robot = Robot {
            data: data,
            known_cells: Vec::new(),
            visible_others: Vec::new(),
            visible_valuables: Vec::new(),
            active_process: None,
            movement_queue: None,
            modules: modules,
            clock: 0,
        };

        robot.set_max_vals();

        robot
    }

    /// Update the status text
    pub fn set_status_text(&mut self, status: &str)
        ensures
            final(self).data.status_text@ == status_after(old(self).data.status_text@, status@),
            *final(self) == old(self).with_data(
                RobotData { status_text: final(self).data.status_text, ..old(self).data },
            ),
    {
        let before = self.data.status_text.as_str();
        let len: usize = before.unicode_len();
        let mut i: usize = 0;
        let mut seen: usize = 0;
        while i < len
            invariant
                i <= len,
                len == before@.len(),
                seen < 4,
                line_break(before@, i as int, seen as int, 4) == line_break(before@, 0, 0, 4),
            ensures
                i <= len,
                i == line_break(before@, 0, 0, 4),
            decreases len - i,
        {
            let c = before.get_char(i);
            if c == '\n' {
                if seen + 1 >= 4 {
                    break ;
                }
                seen = seen + 1;
            }
            i = i + 1;
        }
        let kept = before.substring_char(0, i);
        let mut text = String::from_str(status);
        proof {
            reveal_strlit("\n");
        }
        text.append("\n");
        text.append(kept);
        proof {
            assert("\n"@ =~= seq!['\n']);
            assert(kept@ =~= first_lines(before@, 4));
            assert(text@ =~= status_after(before@, status@));
        }
        self.data.status_text = text;
    }

    /// update the max power based on the power module
    pub fn set_max_vals(&mut self)
        ensures
            *final(self) == old(self).with_data(
                RobotData {
                    max_power: max_power(old(self).modules.m_power@) as i32,
                    power: max_power(old(self).modules.m_power@) as i32,
                    recharge_rate: recharge_rate(old(self).modules.m_power@) as i32,
                    hull_strength: hull_max_strength(old(self).modules.m_hull@) as i32,
                    max_hull_strength: hull_max_strength(old(self).modules.m_hull@) as i32,
                    max_val_inventory: collection_max(old(self).modules.m_collector@) as i32,
                    ..old(self).data
                },
            ),
    {
        let max_power = PowerModule::get_max_power(self.modules.m_power.as_str());
        let recharge_rate = PowerModule::get_recharge_rate(self.modules.m_power.as_str());
        let hull_strength = HullModule::get_max_strength(self.modules.m_hull.as_str());
        let max_val_inventory = CollectorModule::get_collection_max(
            self.modules.m_collector.as_str(),
        );

        self.data.max_power = max_power;
        self.data.power = max_power;
        self.data.recharge_rate = recharge_rate;
        self.data.hull_strength = hull_strength;
        self.data.max_hull_strength = hull_strength;
        self.data.max_val_inventory = max_val_inventory;
    }

    /// use power
    pub fn use_power(&mut self, amount: i32) -> (used: ProcessResult)
        requires
            old(self).data.power - amount <= i32::MAX,
        ensures
            old(self).data.power < amount ==> used == ProcessResult::Fail && *final(self) == *old(self),
            old(self).data.power >= amount ==> used == ProcessResult::Okay && *final(self) == old(self).with_data(
                RobotData { power: (old(self).data.power - amount) as i32, ..old(self).data },
            ),
            old(self).wf() && amount >= 0 ==> final(self).wf(),
    {
        if self.data.power < amount {
            return ProcessResult::Fail;
        }
        self.data.power = self.data.power - amount;

        return ProcessResult::Okay;
    }

    /// The power of a robot after a recharge.
    pub open spec fn recharged(power: int, rate: int, max: int) -> int {
        if power + rate > max {
            max
        } else {
            power + rate
        }
    }

    /// recharge power based on the rate
    pub fn recharge_power(&mut self)
        requires
            i32::MIN <= old(self).data.power + old(self).data.recharge_rate,
        ensures
            *final(self) == old(self).with_data(
                RobotData {
                    power: Self::recharged(
                        old(self).data.power as int,
                        old(self).data.recharge_rate as int,
                        old(self).data.max_power as int,
                    ) as i32,
                    ..old(self).data
                },
            ),
            old(self).wf() ==> final(self).wf(),
    {
        let charged: i64 = self.data.power as i64 + self.data.recharge_rate as i64;
        if charged > self.data.max_power as i64 {
            self.data.power = self.data.max_power;
        } else {
            self.data.power = charged as i32;
        }
    }

    /// Update the hull strength
    pub fn update_hull_strength(&mut self, adjustment: i32)
        requires
            i32::MIN <= old(self).data.hull_strength + adjustment <= i32::MAX,
        ensures
            *final(self) == old(self).with_data(
                RobotData {
                    hull_strength: (old(self).data.hull_strength + adjustment) as i32,
                    ..old(self).data
                },
            ),
    {
        self.data.hull_strength = self.data.hull_strength + adjustment;
    }

    /// print id and status text
    pub fn ident(&self) {
    }

    /// Update the orientation on turn left
    pub fn turn_left(&mut self)
        ensures
            *final(self) == old(self).with_data(
                RobotData {
                    orientation: old(self).data.orientation.spec_left(60),
                    ..old(self).data
                },
            ),
    {
        let orientation = self.data.orientation.left(60);
        self.data.orientation = orientation;
    }

    /// Update the orientation on turn right
    pub fn turn_right(&mut self)
        ensures
            *final(self) == old(self).with_data(
                RobotData {
                    orientation: old(self).data.orientation.spec_right(60),
                    ..old(self).data
                },
            ),
    {
        let orientation = self.data.orientation.right(60);
        self.data.orientation = orientation;
    }

    /// Take a single step forward and return new coords
    pub fn move_forward(&mut self) -> (new_coords: Coords)
        requires
            old(self).coords().can_step(old(self).data.orientation, 1),
        ensures
            new_coords == old(self).coords().step(old(self).data.orientation, 1),
            *final(self) == old(self).with_data(
                RobotData { q: new_coords.q, r: new_coords.r, ..old(self).data },
            ),
    {
        let orientation = self.data.orientation;
        let new_coords = Coords { q: self.data.q, r: self.data.r }.to(&orientation, 1);
        self.data.q = new_coords.q;
        self.data.r = new_coords.r;

        new_coords
    }

    /// get the next step from the movement queue
    pub fn get_move(&mut self) -> (next: Option<MoveStep>)
        ensures
            final(self).data == old(self).data,
            final(self).known_cells == old(self).known_cells,
            final(self).visible_others == old(self).visible_others,
            final(self).visible_valuables == old(self).visible_valuables,
            final(self).active_process == old(self).active_process,
            final(self).modules == old(self).modules,
            final(self).clock == old(self).clock,
            match old(self).movement_queue {
                None => next is None && final(self).movement_queue is None,
                Some(queue) => if queue@.len() == 0 {
                    next is None && final(self).movement_queue is None
                } else {
                    &&& next == Some(queue@[0])
                    &&& final(self).movement_queue is Some
                    &&& final(self).movement_queue->0@ == queue@.drop_first()
                },
            },
    {
        let taken = self.movement_queue.take();
        match taken {
            None => None,
            Some(mut queue) => {
                if queue.len() == 0 {
                    return None;
                }
                let step = queue.remove(0);
                proof {
                    assert(queue@ =~= taken->0@.drop_first());
                }
                self.movement_queue = Some(queue);
                Some(step)
            },
        }
    }

    /// empty out the movement queue
    pub fn empty_movement_queue(&mut self)
        ensures
            *final(self) == (Robot { movement_queue: None, ..*old(self) }),
    {
        self.movement_queue = None;
    }

    /// Register an attack
    pub fn record_attack(&mut self, attacker_id: i64, direction: i32)
        ensures
            *final(self) == old(self).with_data(
                RobotData { attacked_by: attacker_id, attacked_from: direction, ..old(self).data },
            ),
    {
        self.data.attacked_by = attacker_id;
        self.data.attacked_from = direction;
    }

    /// Clear out attacker information
    pub fn clear_attacker_info(&mut self)
        ensures
            *final(self) == old(self).with_data(
                RobotData { attacked_by: -1i64, attacked_from: -1i32, ..old(self).data },
            ),
    {
        self.data.attacked_by = -1;
        self.data.attacked_from = -1;
    }

    /// Clear out what the robot's last attack came to.
    pub fn clear_attack_info(&mut self)
        ensures
            *final(self) == old(self).with_data(
                RobotData { attacked: -1i64, damage_done: -1i32, ..old(self).data },
            ),
    {
        self.data.attacked = -1;
        self.data.damage_done = -1;
    }

    /// Determine if we are under attack
    pub fn is_under_attack(&self) -> (attacked: bool)
        ensures
            attacked == (self.data.attacked_by != -1),
    {
        self.data.attacked_by != -1
    }

    /// Get the direction of the attack
    pub fn get_attack_dir(&self) -> (dir: Dir)
        ensures
            dir == crate::grid::coords::dir_of_degrees(self.data.attacked_from as int),
    {
        let dir: Dir = Dir::from(self.data.attacked_from);
        dir
    }

    /// Whether one of the cells of `fresh` is `cell` seen again.
    fn is_seen_again(fresh: &Vec<RobotKnownCell>, cell: &RobotKnownCell) -> (found: bool)
        ensures
            found == seen_again(fresh@, *cell),
    {
        let mut j: usize = 0;
        while j < fresh.len()
            invariant
                j <= fresh.len(),
                forall|k: int|
                    0 <= k < j ==> !((#[trigger] fresh@[k]).robot_id == cell.robot_id
                        && fresh@[k].gridcell_id == cell.gridcell_id),
            decreases fresh.len() - j,
        {
            if fresh[j].robot_id == cell.robot_id && fresh[j].gridcell_id == cell.gridcell_id {
                return true;
            }
            j = j + 1;
        }
        false
    }

    /// Update known cells with new scans; remove old results to match limits
    pub fn update_known_cells(&mut self, new_cells: Vec<RobotKnownCell>)
        ensures
            final(self).known_cells@ == limited(
                merged_cells(old(self).known_cells@, new_cells@),
                old(self).memory_limit(),
            ),
            final(self).known_cells@.len() <= old(self).memory_limit(),
            *final(self) == (Robot { known_cells: final(self).known_cells, ..*old(self) }),
    {
        let mut new_known_cells: Vec<RobotKnownCell> = Vec::new();
        let mut i: usize = 0;
        proof {
            assert(self.known_cells@.take(0).filter(not_seen_again(new_cells@)) =~= Seq::<
                RobotKnownCell,
            >::empty());
        }
        while i < self.known_cells.len()
            invariant
                i <= self.known_cells.len(),
                self.known_cells == old(self).known_cells,
                new_known_cells@ == self.known_cells@.take(i as int).filter(
                    not_seen_again(new_cells@),
                ),
            decreases self.known_cells.len() - i,
        {
            let cell = self.known_cells[i];
            proof {
                self.known_cells@.lemma_take_succ_push(i as int);
                self.known_cells@.take(i as int).lemma_filter_push(cell, not_seen_again(new_cells@));
            }
            if !Self::is_seen_again(&new_cells, &cell) {
                new_known_cells.push(cell);
            }
            i = i + 1;
        }
        proof {
            self.known_cells@.lemma_take_len();
        }
        let mut fresh = new_cells;
        new_known_cells.append(&mut fresh);

        self.known_cells = new_known_cells;

        self.limit_known_cells();
    }

    /// Cuts the known cells down to what the memory holds: while there are
    /// more, the oldest leaves.
    pub fn limit_known_cells(&mut self)
        ensures
            final(self).known_cells@ == limited(old(self).known_cells@, old(self).memory_limit()),
            final(self).known_cells@.len() <= old(self).memory_limit(),
            *final(self) == (Robot { known_cells: final(self).known_cells, ..*old(self) }),
    {
        let mem_limit = MemoryModule::get_memory_size(self.modules.m_memory.as_str());
        proof {
            lemma_limited_len(self.known_cells@, mem_limit as int);
        }
        while self.known_cells.len() > mem_limit
            invariant
                mem_limit == old(self).memory_limit(),
                limited(self.known_cells@, mem_limit as int) == limited(
                    old(self).known_cells@,
                    mem_limit as int,
                ),
                *self == (Robot { known_cells: self.known_cells, ..*old(self) }),
            decreases self.known_cells.len(),
        {
            let mut best: usize = 0;
            let mut k: usize = 1;
            while k < self.known_cells.len()
                invariant
                    1 <= k <= self.known_cells.len(),
                    best == oldest_among(self.known_cells@, k as int),
                    0 <= best < k,
                decreases self.known_cells.len() - k,
            {
                if self.known_cells[k].discovery_time < self.known_cells[best].discovery_time {
                    best = k;
                }
                k = k + 1;
            }
            self.known_cells.remove(best);
        }
    }

    /// Takes the robots that a scan saw as the robots in view.
    pub fn update_visible_others(&mut self, visible_robots: &Vec<VisibleRobot>)
        ensures
            final(self).visible_others@ == visible_robots@,
            *final(self) == (Robot { visible_others: final(self).visible_others, ..*old(self) }),
    {
        let mut others: Vec<VisibleRobot> = Vec::new();
        let mut i: usize = 0;
        while i < visible_robots.len()
            invariant
                i <= visible_robots.len(),
                others@ == visible_robots@.take(i as int),
            decreases visible_robots.len() - i,
        {
            others.push(visible_robots[i]);
            proof {
                assert(visible_robots@.take(i + 1) =~= visible_robots@.take(i as int).push(
                    visible_robots@[i as int],
                ));
            }
            i = i + 1;
        }
        proof {
            assert(visible_robots@.take(visible_robots.len() as int) =~= visible_robots@);
        }
        self.visible_others = others;
    }

    /// Takes the valuables that a scan saw as the valuables in view.
    pub fn update_visible_valuables(&mut self, visible_valuables: &Vec<VisibleValuable>)
        ensures
            final(self).visible_valuables@ == visible_valuables@,
            *final(self) == (Robot {
                visible_valuables: final(self).visible_valuables,
                ..*old(self)
            }),
    {
        let mut valuables: Vec<VisibleValuable> = Vec::new();
        let mut i: usize = 0;
        while i < visible_valuables.len()
            invariant
                i <= visible_valuables.len(),
                valuables@ == visible_valuables@.take(i as int),
            decreases visible_valuables.len() - i,
        {
            valuables.push(visible_valuables[i]);
            proof {
                assert(visible_valuables@.take(i + 1) =~= visible_valuables@.take(i as int).push(
                    visible_valuables@[i as int],
                ));
            }
            i = i + 1;
        }
        proof {
            assert(visible_valuables@.take(visible_valuables.len() as int) =~= visible_valuables@);
        }
        self.visible_valuables = valuables;
    }

    /// Check if the coords are known to be occupied
    pub fn known_occupied_coords(&self, coords: &Coords) -> (occupied: bool)
        ensures
            occupied == seen_at(self.visible_others@, *coords),
    {
        let mut j: usize = 0;
        while j < self.visible_others.len()
            invariant
                j <= self.visible_others.len(),
                forall|k: int| 0 <= k < j ==> (#[trigger] self.visible_others@[k]).coords != *coords,
            decreases self.visible_others.len() - j,
        {
            let other = self.visible_others[j];
            if other.coords.q == coords.q && other.coords.r == coords.r {
                return true;
            }
            j = j + 1;
        }
        false
    }

    /// Get the robot's coordinates
    pub fn get_coords(&self) -> (c: Coords)
        ensures
            c == self.coords(),
    {
        Coords { q: self.data.q, r: self.data.r }
    }

    /// Get the robot's coordinates and orientation
    pub fn get_coords_and_orientation(&self) -> (at: CoordsAndDir)
        ensures
            at == (CoordsAndDir { coords: self.coords(), dir: self.data.orientation }),
    {
        CoordsAndDir {
            coords: Coords { q: self.data.q, r: self.data.r },
            dir: self.data.orientation,
        }
    }

    /// Get a map of coords to full gridcells that this robot knows about
    pub fn get_known_cells(&self, grid: &Grid) -> (cells: CoordMap<GridCell>)
        ensures
            cells@ == known_map(self.known_cells@, grid.cells@),
            cells_consistent(grid.cells@) ==> cells_consistent(cells@),
    {
        let mut known_cells_full: CoordMap<GridCell> = CoordMap::new();
        let mut i: usize = 0;
        proof {
            assert(known_cells_full@ =~= known_map(self.known_cells@.take(0), grid.cells@));
        }
        // convert the RobotKnownCell into full gridcells of the known cells
        // we only want to find paths within our known cells
        while i < self.known_cells.len()
            invariant
                i <= self.known_cells.len(),
                known_cells_full@ == known_map(self.known_cells@.take(i as int), grid.cells@),
            decreases self.known_cells.len() - i,
        {
            let known_cell = self.known_cells[i];
            let coords = Coords { q: known_cell.q, r: known_cell.r };
            let ghost before = known_cells_full@;

            if let Some(cell) = grid.cells.get(&coords) {
                known_cells_full.insert(coords, *cell);
            }
            proof {
                let seen = self.known_cells@.take(i as int);
                self.known_cells@.lemma_take_succ_push(i as int);
                assert forall|c: Coords|
                    knows(seen.push(known_cell), c) == (knows(seen, c) || known_cell.coords()
                        == c) by {
                    lemma_knows_push(seen, known_cell, c);
                }
                assert(known_cells_full@ =~= known_map(seen.push(known_cell), grid.cells@));
            }
            i = i + 1;
        }
        proof {
            self.known_cells@.lemma_take_len();
        }

        known_cells_full
    }

    /// Get a map of coords to full gridcells that this robot knows about
    /// and isn't occupied by a known other robot
    pub fn get_known_unoccupied_cells(&self, grid: &Grid) -> (cells: CoordMap<GridCell>)
        ensures
            cells@ == known_free_map(
                self.known_cells@,
                self.visible_others@,
                self.coords(),
                grid.cells@,
            ),
            cells_consistent(grid.cells@) ==> cells_consistent(cells@),
    {
        let mut known_cells_full: CoordMap<GridCell> = CoordMap::new();
        let robot_coords = Coords { q: self.data.q, r: self.data.r };
        let mut i: usize = 0;
        proof {
            assert(known_cells_full@ =~= known_free_map(
                self.known_cells@.take(0),
                self.visible_others@,
                robot_coords,
                grid.cells@,
            ));
        }
        while i < self.known_cells.len()
            invariant
                i <= self.known_cells.len(),
                robot_coords == self.coords(),
                known_cells_full@ == known_free_map(
                    self.known_cells@.take(i as int),
                    self.visible_others@,
                    robot_coords,
                    grid.cells@,
                ),
            decreases self.known_cells.len() - i,
        {
            let known_cell = self.known_cells[i];
            let coords = Coords { q: known_cell.q, r: known_cell.r };

            // ignore any cells with another robot standing on it
            let taken: bool = self.known_occupied_coords(&coords) && !(coords.q == robot_coords.q
                && coords.r == robot_coords.r);
            if !taken {
                if let Some(cell) = grid.cells.get(&coords) {
                    known_cells_full.insert(coords, *cell);
                }
            }
            proof {
                let seen = self.known_cells@.take(i as int);
                self.known_cells@.lemma_take_succ_push(i as int);
                assert forall|c: Coords|
                    knows(seen.push(known_cell), c) == (knows(seen, c) || known_cell.coords()
                        == c) by {
                    lemma_knows_push(seen, known_cell, c);
                }
                assert(known_cells_full@ =~= known_free_map(
                    seen.push(known_cell),
                    self.visible_others@,
                    robot_coords,
                    grid.cells@,
                ));
            }
            i = i + 1;
        }
        proof {
            self.known_cells@.lemma_take_len();
        }

        known_cells_full
    }

    /// Whether the robot knows the cell at a position.
    pub fn knows_coords(&self, coords: &Coords) -> (known: bool)
        ensures
            known == knows(self.known_cells@, *coords),
    {
        let mut i: usize = 0;
        while i < self.known_cells.len()
            invariant
                i <= self.known_cells.len(),
                forall|k: int| 0 <= k < i ==> (#[trigger] self.known_cells@[k]).coords() != *coords,
            decreases self.known_cells.len() - i,
        {
            let cell = self.known_cells[i];
            if cell.q == coords.q && cell.r == coords.r {
                return true;
            }
            i = i + 1;
        }
        false
    }

    /// The cells over which the robot plans a way to `target`.
    pub open spec fn planning_cells(&self, grid: &Grid, target: Coords, to_robot: bool) -> Map<
        Coords,
        GridCell,
    > {
        planning_map(
            self.known_cells@,
            self.visible_others@,
            self.coords(),
            grid.cells@,
            target,
            to_robot,
        )
    }

    /// Get the cells over which the robot plans a way to `target`
    pub fn get_planning_cells(&self, grid: &Grid, target: &Coords, to_robot: bool) -> (cells:
        CoordMap<GridCell>)
        ensures
            cells@ == self.planning_cells(grid, *target, to_robot),
            cells_consistent(grid.cells@) ==> cells_consistent(cells@),
    {
        let mut cells = self.get_known_unoccupied_cells(grid);
        if to_robot && self.knows_coords(target) {
            if let Some(cell) = grid.cells.get(target) {
                cells.insert(*target, *cell);
            }
        }
        cells
    }

    /// The move that the robot is to make next, if it has moves left.
    pub open spec fn next_move(&self) -> Option<MoveStep> {
        match self.movement_queue {
            Some(queue) => if queue@.len() > 0 {
                Some(queue@[0])
            } else {
                None
            },
            None => None,
        }
    }

    /// Whether the robot can step forward: it stands on a cell of the grid
    /// whose side ahead is no wall, and no robot stands on the cell ahead.
    pub open spec fn way_ahead_free(&self, grid: &Grid) -> bool {
        &&& grid.cells@.contains_key(self.coords())
        &&& grid.cells@[self.coords()].side(self.data.orientation) != EdgeType::Wall
        &&& !grid.robot_locs@.contains_key(self.coords().step(self.data.orientation, 1))
    }

    /// Whether the robot can make its next move: it has one, and where that
    /// is a step forward, the way ahead is free.
    pub open spec fn can_move(&self, grid: &Grid) -> bool {
        match self.next_move() {
            None => false,
            Some(MoveStep::Forward) => self.way_ahead_free(grid),
            Some(_) => true,
        }
    }

    /// What is on record of the robot after its next move: a turn changes
    /// the robot's facing, a free step forward its place, and nothing
    /// changes where the robot cannot move.
    pub open spec fn data_after_move(&self, grid: &Grid) -> RobotData {
        match self.next_move() {
            Some(MoveStep::Left) => RobotData {
                orientation: self.data.orientation.spec_left(60),
                ..self.data
            },
            Some(MoveStep::Right) => RobotData {
                orientation: self.data.orientation.spec_right(60),
                ..self.data
            },
            Some(MoveStep::Forward) => if self.way_ahead_free(grid) {
                RobotData {
                    q: self.coords().step(self.data.orientation, 1).q,
                    r: self.coords().step(self.data.orientation, 1).r,
                    ..self.data
                }
            } else {
                self.data
            },
            None => self.data,
        }
    }

    /// What the next move makes of the robot and the grid: the move comes
    /// off the queue, which is given up when it holds no move; the robot's
    /// record is that after the move; the grid's index follows the robot;
    /// and nothing else changes.
    pub open spec fn made_move(&self, after: &Robot, grid_before: &Grid, grid_after: &Grid) -> bool {
        &&& after.data == self.data_after_move(grid_before)
        &&& after.known_cells == self.known_cells
        &&& after.visible_others == self.visible_others
        &&& after.visible_valuables == self.visible_valuables
        &&& after.active_process == self.active_process
        &&& after.modules == self.modules
        &&& after.clock == self.clock
        &&& match self.movement_queue {
            None => after.movement_queue is None,
            Some(queue) => if queue@.len() == 0 {
                after.movement_queue is None
            } else {
                after.movement_queue is Some && after.movement_queue->0@ == queue@.drop_first()
            },
        }
        &&& self.stepped(after, grid_before, grid_after)
        &&& grid_after.cells@ == grid_before.cells@
        &&& grid_after.valuables_locs@ == grid_before.valuables_locs@
        &&& grid_after.cell_list() == grid_before.cell_list()
        &&& grid_after.guess() == grid_before.guess()
        &&& after.coords() == self.coords() ==> *grid_after == *grid_before
    }

    /// Try to move a robot
    ///
    /// If moving the robot forward, 1) make sure there isn't a wall, and 2) make sure the
    /// cell isn't occupied; if this conditions fail, return a Fail
    /// Then update the robot's position or orientation and update grid's `robot_locs`
    pub fn move_robot(&mut self, grid: &mut Grid) -> (moved: ProcessResult)
        requires
            old(self).wf(),
            old(grid).wf(),
        ensures
            final(self).wf(),
            final(grid).wf(),
            moved == (if old(self).can_move(old(grid)) {
                ProcessResult::Okay
            } else {
                ProcessResult::Fail
            }),
            old(self).made_move(final(self), old(grid), final(grid)),
    {
        let robot_coords = Coords { q: self.data.q, r: self.data.r };
        let orientation = self.data.orientation;
        let next_step = self.get_move();

        match next_step {
            None => {
                return ProcessResult::Fail;
            },
            Some(MoveStep::Left) => {
                self.turn_left();
            },
            Some(MoveStep::Right) => {
                self.turn_right();
            },
            Some(MoveStep::Forward) => {
                let cell: GridCell = match grid.cells.get(&robot_coords) {
                    Some(cell) => *cell,
                    None => {
                        return ProcessResult::Fail;
                    },
                };

                if cell.get_side(orientation) == EdgeType::Wall {
                    return ProcessResult::Fail;
                }
                proof {
                    lemma_step_near(robot_coords, orientation, 1);
                    grid.lemma_perimeter_closed_at(robot_coords, orientation);
                }

                if grid.robot_locs.contains_key(&robot_coords.to(&orientation, 1)) {
                    return ProcessResult::Fail;
                }
                let new_robot_coords = self.move_forward();

                grid.update_robot_loc(self.data.id, robot_coords, new_robot_coords);
            },
        }
        ProcessResult::Okay
    }

    /// what we do when we need to start a new mining operation
    pub fn start_new_mining_operation(&mut self)
        ensures
            *final(self) == old(self).with_data(RobotData { mined_amount: 0, ..old(self).data }),
    {
        self.data.mined_amount = 0;
    }

    /// Called as part of a server response when we have successfully mined a valuable
    pub fn successfully_mined(&mut self, amount: i32)
        requires
            i32::MIN <= old(self).data.mined_amount + amount <= i32::MAX,
            i32::MIN <= old(self).data.val_inventory + amount <= i32::MAX,
        ensures
            old(self).wf() && 0 <= amount <= old(self).data.max_val_inventory - old(self).data.val_inventory ==> final(self).wf(),
            *final(self) == old(self).with_data(
                RobotData {
                    mined_amount: (old(self).data.mined_amount + amount) as i32,
                    val_inventory: (old(self).data.val_inventory + amount) as i32,
                    ..old(self).data
                },
            ),
    {
        self.data.mined_amount = self.data.mined_amount + amount;
        self.data.val_inventory = self.data.val_inventory + amount;
    }

    /// Update our pursuit details
    pub fn update_pursuit_details(&mut self, other_id: i64, other_coords: &Coords)
        ensures
            *final(self) == old(self).with_data(
                RobotData {
                    pursuit_id: other_id,
                    pursuit_last_q: other_coords.q,
                    pursuit_last_r: other_coords.r,
                    ..old(self).data
                },
            ),
    {
        self.data.pursuit_id = other_id;
        self.data.pursuit_last_q = other_coords.q;
        self.data.pursuit_last_r = other_coords.r;
    }

    /// Are we pursuing someone
    pub fn is_pursuing(&self) -> (pursuing: bool)
        ensures
            pursuing == (self.data.pursuit_id != -1),
    {
        self.data.pursuit_id != -1
    }

    fn set_exfil_countdown(&mut self, value: i32)
        ensures
            *final(self) == old(self).with_data(
                RobotData { exfil_countdown: value, ..old(self).data },
            ),
    {
        self.data.exfil_countdown = value;
    }

    /// start the exfil countdown
    pub fn start_exfil_countdown(&mut self)
        ensures
            *final(self) == old(self).with_data(
                RobotData {
                    exfil_countdown: exfil_delay(old(self).modules.m_exfilbeacon@) as i32,
                    ..old(self).data
                },
            ),
    {
        let value = ExfilBeaconModule::get_delay(self.modules.m_exfilbeacon.as_str());
        self.set_exfil_countdown(value);
    }

    /// reset the exfil countdown
    pub fn reset_exfil_countdown(&mut self)
        ensures
            *final(self) == old(self).with_data(
                RobotData { exfil_countdown: -1i32, ..old(self).data },
            ),
    {
        let value: i32 = -1;
        self.set_exfil_countdown(value);
    }

    /// The countdown to extraction after one more tick.
    pub open spec fn counted_down(countdown: i32) -> i32 {
        if countdown > i32::MIN {
            (countdown - 1) as i32
        } else {
            countdown
        }
    }

    /// decrement the exfil countdown
    pub fn tick_exfil_countdown(&mut self)
        ensures
            *final(self) == old(self).with_data(
                RobotData {
                    exfil_countdown: Self::counted_down(old(self).data.exfil_countdown),
                    ..old(self).data
                },
            ),
    {
        let value: i32 = if self.data.exfil_countdown > i32::MIN {
            self.data.exfil_countdown - 1
        } else {
            self.data.exfil_countdown
        };
        self.set_exfil_countdown(value);
    }
}

} // verus!
