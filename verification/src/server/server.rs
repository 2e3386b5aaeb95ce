//! The engine: it owns the grid, the robots and the valuables, puts new ones
//! into the world, lets each robot take its tick and answers what the
//! robot asks.

use vstd::prelude::*;
use vstd::string::StringExecFns;

use crate::grid::coords::{Coords, Dir};
use crate::grid::grid::{present_cells, Grid, GridCell};
use crate::robot::control::{heard, ticked};
use crate::robot::modules::collector::{is_collector_kind, CollectorModule};
use crate::robot::modules::memory::memory_size;
use crate::robot::modules::power::{is_power_kind, PowerModule};
use crate::robot::modules::scanner::{is_scanner_kind, ScannerModule};
use crate::robot::modules::weapon::{
    is_weapon_kind, weapon_max_damage, weapon_min_damage, WeaponModule,
};
use crate::robot::robot::{Robot, RobotData};
use crate::server::broadcast::BroadcastMessage;
use crate::server::{Request, Response, ServerConfig};
use crate::utils::{bearing, get_bearing, random_in_range, same_name};
use crate::valuable::{Valuable, MAX_AMOUNT};

verus! {

/// The kind of memory that goes with a kind of scanner.
pub open spec fn memory_for(scanner: Seq<char>) -> Seq<char> {
    if scanner == "triscan_advanced"@ || scanner == "triscan_ultra"@ || scanner
        == "boxium_started"@ {
        "plus"@
    } else if scanner == "boxium_advanced"@ {
        "ikito"@
    } else if scanner == "boxium_ultra"@ || scanner == "omni_basic"@ || scanner == "omni_ultra"@ {
        "jindai"@
    } else {
        "basic"@
    }
}

/// The kind of power unit that a robot gets for which `power` was drawn:
/// the kind drawn, but the plus kind where the basic kind was drawn for a
/// robot with the largest collector.
pub open spec fn power_for(collector: Seq<char>, power: Seq<char>) -> Seq<char> {
    if collector == "ultratech"@ && power == "basic"@ {
        "plus"@
    } else {
        power
    }
}

/// The index of valuables after the piles of a list that hold nothing are
/// taken out of it.
pub open spec fn without_depleted(locs: Map<Coords, i64>, piles: Seq<Valuable>) -> Map<Coords, i64>
    decreases piles.len(),
{
    if piles.len() == 0 {
        locs
    } else {
        let rest = without_depleted(locs, piles.drop_last());
        if piles.last().amount == 0 {
            rest.remove(piles.last().coords())
        } else {
            rest
        }
    }
}

/// Whether a pile holds something.
pub open spec fn holds_something() -> spec_fn(Valuable) -> bool {
    |v: Valuable| v.amount != 0
}

/// The hull of a robot after a hit: lower by the damage, and no lower than
/// a number can say.
pub open spec fn hull_after(hull: int, damage: int) -> int {
    if hull - damage < i32::MIN {
        i32::MIN as int
    } else if hull - damage > i32::MAX {
        i32::MAX as int
    } else {
        hull - damage
    }
}

/// Whether a list of messages is another with more messages behind it.
pub open spec fn outbox_grown(before: Seq<BroadcastMessage>, after: Seq<BroadcastMessage>) -> bool {
    &&& before.len() <= after.len()
    &&& forall|k: int| 0 <= k < before.len() ==> after[k] == before[k]
}

/// ARES Server internal state
#[derive(Debug)]
pub struct Server {
    pub config: ServerConfig,
    pub grid: Grid,
    /// The robots, by rising id.
    pub robots: Vec<Robot>,
    /// The valuables, by rising id.
    pub valuables: Vec<Valuable>,
    /// What is to be told to those who watch, oldest first.
    pub outbox: Vec<BroadcastMessage>,
    /// The id that the next new robot gets.
    pub next_robot_id: i64,
    /// The id that the next new valuable gets.
    pub next_valuable_id: i64,
    /// if true, we've been asked to shutdown
    pub shutdown: bool,
}

/// Whether a list holds the robots by rising id, all below `next`, each in a
/// state that robots can be in.
pub open spec fn robots_wf(robots: Seq<Robot>, next: i64) -> bool {
    &&& forall|i: int| 0 <= i < robots.len() ==> (#[trigger] robots[i]).wf()
    &&& forall|i: int| 0 <= i < robots.len() ==> (#[trigger] robots[i]).data.id < next
    &&& forall|i: int, j: int|
        0 <= i < j < robots.len() ==> (#[trigger] robots[i]).data.id < (#[trigger] robots[j]).data.id
}

/// Whether a list holds the valuables by rising id, all below `next`, each
/// holding what a pile can hold.
pub open spec fn valuables_wf(valuables: Seq<Valuable>, next: i64) -> bool {
    &&& forall|i: int| 0 <= i < valuables.len() ==> (#[trigger] valuables[i]).wf()
    &&& forall|i: int| 0 <= i < valuables.len() ==> (#[trigger] valuables[i]).id < next
    &&& forall|i: int, j: int|
        0 <= i < j < valuables.len() ==> (#[trigger] valuables[i]).id < (#[trigger] valuables[j]).id
}

/// The place of the robot with the given id in a list, if it is there.
pub open spec fn robot_place(robots: Seq<Robot>, id: i64) -> Option<int> {
    if exists|i: int| 0 <= i < robots.len() && (#[trigger] robots[i]).data.id == id {
        Some(choose|i: int| 0 <= i < robots.len() && (#[trigger] robots[i]).data.id == id)
    } else {
        None
    }
}

/// The place of the valuable with the given id in a list, if it is there.
pub open spec fn valuable_place(valuables: Seq<Valuable>, id: i64) -> Option<int> {
    if exists|i: int| 0 <= i < valuables.len() && (#[trigger] valuables[i]).id == id {
        Some(choose|i: int| 0 <= i < valuables.len() && (#[trigger] valuables[i]).id == id)
    } else {
        None
    }
}

/// A robot has one place in a list of robots by rising id.
pub proof fn lemma_robot_place(robots: Seq<Robot>, next: i64, i: int)
    requires
        robots_wf(robots, next),
        0 <= i < robots.len(),
    ensures
        robot_place(robots, robots[i].data.id) == Some(i),
{
    let id = robots[i].data.id;
    let k = choose|k: int| 0 <= k < robots.len() && (#[trigger] robots[k]).data.id == id;
    if k < i {
        assert(robots[k].data.id < robots[i].data.id);
    } else if i < k {
        assert(robots[i].data.id < robots[k].data.id);
    }
}

/// A valuable has one place in a list of valuables by rising id.
pub proof fn lemma_valuable_place(valuables: Seq<Valuable>, next: i64, i: int)
    requires
        valuables_wf(valuables, next),
        0 <= i < valuables.len(),
    ensures
        valuable_place(valuables, valuables[i].id) == Some(i),
{
    let id = valuables[i].id;
    let k = choose|k: int| 0 <= k < valuables.len() && (#[trigger] valuables[k]).id == id;
    if k < i {
        assert(valuables[k].id < valuables[i].id);
    } else if i < k {
        assert(valuables[i].id < valuables[k].id);
    }
}

/// Whether a list of robots holds a robot with the given id.
#[verifier::opaque]
pub open spec fn listed(robots: Seq<Robot>, id: i64) -> bool {
    exists|i: int| 0 <= i < robots.len() && (#[trigger] robots[i]).data.id == id
}

/// Whether the index of robots and a list of robots tell the same: every
/// robot of the list is in the index where it stands, and every robot in
/// the index is one of the list.
pub open spec fn index_matches(locs: Map<Coords, i64>, robots: Seq<Robot>) -> bool {
    &&& forall|i: int|
        0 <= i < robots.len() ==> locs.contains_key((#[trigger] robots[i]).coords())
            && locs[robots[i].coords()] == robots[i].data.id
    &&& forall|c: Coords| #[trigger] locs.contains_key(c) ==> listed(robots, locs[c])
}

/// The index and the list still tell the same after one robot has taken
/// its step.
proof fn lemma_index_after_step(
    before: &Grid,
    after: &Grid,
    robots_before: Seq<Robot>,
    robots_after: Seq<Robot>,
    next: i64,
    i: int,
)
    requires
        before.wf(),
        after.wf(),
        robots_wf(robots_before, next),
        index_matches(before.robot_locs@, robots_before),
        0 <= i < robots_before.len(),
        robots_after.len() == robots_before.len(),
        forall|k: int| 0 <= k < robots_before.len() && k != i ==> robots_after[k] == robots_before[k],
        robots_after[i].data.id == robots_before[i].data.id,
        robots_before[i].stepped(&robots_after[i], before, after),
    ensures
        index_matches(after.robot_locs@, robots_after),
{
    let me = robots_before[i].coords();
    let to = robots_after[i].coords();
    let id = robots_before[i].data.id;
    let locs = before.robot_locs@;
    let moved = after.robot_locs@;
    assert(locs.contains_key(me) && locs[me] == id);
    assert(before.robot_position(id) == Some(me));
    assert forall|k: int| 0 <= k < robots_after.len() implies moved.contains_key(
        (#[trigger] robots_after[k]).coords(),
    ) && moved[robots_after[k].coords()] == robots_after[k].data.id by {
        if k != i {
            let other = robots_before[k];
            assert(locs.contains_key(other.coords()) && locs[other.coords()] == other.data.id);
            if k < i {
                assert(robots_before[k].data.id < robots_before[i].data.id);
            } else {
                assert(robots_before[i].data.id < robots_before[k].data.id);
            }
            assert(other.coords() != me);
        }
    }
    assert forall|c: Coords| #[trigger] moved.contains_key(c) implies listed(
        robots_after,
        moved[c],
    ) by {
        reveal(listed);
        if to != me && c == to {
            assert(robots_after[i].data.id == moved[c]);
        } else {
            assert(locs.contains_key(c));
            assert(listed(robots_before, locs[c]));
            let k = choose|k: int|
                0 <= k < robots_before.len() && (#[trigger] robots_before[k]).data.id == locs[c];
            assert(robots_after[k].data.id == moved[c]);
        }
    }
}

/// The index and the list still tell the same after a robot has left both.
proof fn lemma_index_after_leave(
    before: &Grid,
    after: &Grid,
    robots_before: Seq<Robot>,
    next: i64,
    i: int,
)
    requires
        before.wf(),
        robots_wf(robots_before, next),
        index_matches(before.robot_locs@, robots_before),
        0 <= i < robots_before.len(),
        after.robot_locs@ == (match before.robot_position(robots_before[i].data.id) {
            Some(p) => before.robot_locs@.remove(p),
            None => before.robot_locs@,
        }),
    ensures
        index_matches(after.robot_locs@, robots_before.remove(i)),
{
    let id = robots_before[i].data.id;
    let me = robots_before[i].coords();
    let locs = before.robot_locs@;
    let left = after.robot_locs@;
    let robots = robots_before.remove(i);
    assert(locs.contains_key(me) && locs[me] == id);
    assert(before.robot_position(id) == Some(me));
    assert forall|k: int| 0 <= k < robots.len() implies left.contains_key(
        (#[trigger] robots[k]).coords(),
    ) && left[robots[k].coords()] == robots[k].data.id by {
        let k0 = if k < i {
            k
        } else {
            k + 1
        };
        assert(robots[k] == robots_before[k0]);
        let other = robots_before[k0];
        assert(locs.contains_key(other.coords()) && locs[other.coords()] == other.data.id);
        if k0 < i {
            assert(robots_before[k0].data.id < robots_before[i].data.id);
        } else {
            assert(robots_before[i].data.id < robots_before[k0].data.id);
        }
    }
    assert forall|c: Coords| #[trigger] left.contains_key(c) implies listed(robots, left[c]) by {
        reveal(listed);
        assert(locs.contains_key(c) && c != me);
        assert(listed(robots_before, locs[c]));
        let k0 = choose|k: int|
            0 <= k < robots_before.len() && (#[trigger] robots_before[k]).data.id == locs[c];
        if k0 == i {
            before.lemma_robots_unique(c, me);
        }
        let k = if k0 < i {
            k0
        } else {
            k0 - 1
        };
        assert(robots[k] == robots_before[k0]);
    }
}

/// The index and the list still tell the same after a robot with a new id
/// has joined both on a cell on which no robot stood.
proof fn lemma_index_after_join(
    before: &Grid,
    after: &Grid,
    robots_before: Seq<Robot>,
    next: i64,
    robot: Robot,
)
    requires
        before.wf(),
        robots_wf(robots_before, next),
        index_matches(before.robot_locs@, robots_before),
        robot.data.id >= next,
        !before.robot_locs@.contains_key(robot.coords()),
        after.robot_locs@ == (match before.robot_position(robot.data.id) {
            Some(p) => before.robot_locs@.remove(p),
            None => before.robot_locs@,
        }).insert(robot.coords(), robot.data.id),
    ensures
        before.robot_position(robot.data.id) is None,
        index_matches(after.robot_locs@, robots_before.push(robot)),
{
    let id = robot.data.id;
    let locs = before.robot_locs@;
    let joined = after.robot_locs@;
    let robots = robots_before.push(robot);
    if before.robot_position(id) is Some {
        reveal(listed);
        let p = before.robot_position(id)->0;
        assert(locs.contains_key(p) && locs[p] == id);
        assert(listed(robots_before, locs[p]));
        let k = choose|k: int|
            0 <= k < robots_before.len() && (#[trigger] robots_before[k]).data.id == locs[p];
        assert(robots_before[k].data.id < next);
    }
    assert forall|k: int| 0 <= k < robots.len() implies joined.contains_key(
        (#[trigger] robots[k]).coords(),
    ) && joined[robots[k].coords()] == robots[k].data.id by {
        if k < robots_before.len() {
            assert(robots[k] == robots_before[k]);
            let other = robots_before[k];
            assert(locs.contains_key(other.coords()) && locs[other.coords()] == other.data.id);
        }
    }
    assert forall|c: Coords| #[trigger] joined.contains_key(c) implies listed(robots, joined[c]) by {
        reveal(listed);
        if c == robot.coords() {
            assert(robots[robots_before.len() as int].data.id == joined[c]);
        } else {
            assert(listed(robots_before, locs[c]));
            let k = choose|k: int|
                0 <= k < robots_before.len() && (#[trigger] robots_before[k]).data.id == locs[c];
            assert(robots[k] == robots_before[k]);
        }
    }
}

/// The index and the list still tell the same when a robot of the list
/// changes but stays who and where it is.
proof fn lemma_index_after_change(
    locs: Map<Coords, i64>,
    robots_before: Seq<Robot>,
    robots_after: Seq<Robot>,
)
    requires
        index_matches(locs, robots_before),
        robots_after.len() == robots_before.len(),
        forall|k: int|
            0 <= k < robots_before.len() ==> (#[trigger] robots_after[k]).data.id
                == robots_before[k].data.id && robots_after[k].coords()
                == robots_before[k].coords(),
    ensures
        index_matches(locs, robots_after),
{
    assert forall|k: int| 0 <= k < robots_after.len() implies locs.contains_key(
        (#[trigger] robots_after[k]).coords(),
    ) && locs[robots_after[k].coords()] == robots_after[k].data.id by {
        let other = robots_before[k];
        assert(locs.contains_key(other.coords()) && locs[other.coords()] == other.data.id);
    }
    assert forall|c: Coords| #[trigger] locs.contains_key(c) implies listed(robots_after, locs[c]) by {
        reveal(listed);
        assert(listed(robots_before, locs[c]));
        let k = choose|k: int|
            0 <= k < robots_before.len() && (#[trigger] robots_before[k]).data.id == locs[c];
        assert(robots_after[k].data.id == locs[c]);
    }
}

/// The ARES Server
/// What mining makes of an engine: only the pile with the given id
/// changes. It loses what was asked for, or all that it holds where it
/// holds less, and the answer tells how much that is. The answer is a
/// failure where there is no such pile or less than nothing was asked for.
pub open spec fn mined_from(
    before: &Server,
    after: &Server,
    valuable_id: i64,
    amount: i32,
    response: Option<Response>,
) -> bool {
    &&& after.config == before.config
    &&& after.grid == before.grid
    &&& after.robots == before.robots
    &&& after.outbox == before.outbox
    &&& after.next_robot_id == before.next_robot_id
    &&& after.next_valuable_id == before.next_valuable_id
    &&& after.shutdown == before.shutdown
    &&& match valuable_place(before.valuables@, valuable_id) {
        Some(i) => if amount >= 0 {
            let mined = Valuable::mined(before.valuables@[i].amount as int, amount as int);
            &&& response == Some(Response::Mined { valuable_id: valuable_id, amount: mined as i32 })
            &&& after.valuables@ == before.valuables@.update(
                i,
                Valuable {
                    amount: (before.valuables@[i].amount - mined) as i32,
                    ..before.valuables@[i]
                },
            )
        } else {
            response == Some(Response::Fail) && after.valuables == before.valuables
        },
        None => response == Some(Response::Fail) && after.valuables == before.valuables,
    }
}

/// What it makes of an engine that the robot with the given id leaves the
/// world: the robot is in the list of robots no more, and the grid has
/// neither its place nor its strength.
pub open spec fn gone(before: &Server, after: &Server, robot_id: i64) -> bool {
    &&& after.config == before.config
    &&& after.valuables == before.valuables
    &&& after.outbox == before.outbox
    &&& after.next_robot_id == before.next_robot_id
    &&& after.next_valuable_id == before.next_valuable_id
    &&& after.shutdown == before.shutdown
    &&& after.grid.cells@ == before.grid.cells@
    &&& after.grid.valuables_locs@ == before.grid.valuables_locs@
    &&& after.grid.cell_list() == before.grid.cell_list()
    &&& after.grid.guess() == before.grid.guess()
    &&& after.grid.robot_position(robot_id) is None
    &&& after.grid.robot_strengths@ == before.grid.robot_strengths@.remove(robot_id)
    &&& after.grid.robot_locs@ == (match before.grid.robot_position(robot_id) {
        Some(p) => before.grid.robot_locs@.remove(p),
        None => before.grid.robot_locs@,
    })
    &&& match robot_place(before.robots@, robot_id) {
        Some(i) => after.robots@ == before.robots@.remove(i),
        None => after.robots == before.robots,
    }
    &&& forall|k: int|
        0 <= k < after.robots@.len() ==> (#[trigger] after.robots@[k]).data.id != robot_id
}

/// Whether `after` is the engine `before` with one more message to pass on.
pub open spec fn told_more(before: &Server, after: &Server, message: BroadcastMessage) -> bool {
    before.same_world(after) && after.outbox@ == before.outbox@.push(message)
}

/// What it makes of an engine that the robot with the given id is taken
/// off the grid: the robot leaves the world, and those who watch are told.
pub open spec fn exfiltrated(before: &Server, after: &Server, robot_id: i64) -> bool {
    exists|left: Server| #[trigger]
        gone(before, &left, robot_id) && told_more(
            &left,
            after,
            BroadcastMessage::RobotExfiltrated { robot_id: robot_id },
        )
}

/// What it makes of an engine that `amount` is put down at `coords`: a pile
/// that lies there is topped up, and those who watch are told of it as it
/// is then. Where none lies there a new pile is made, under the next free
/// id, and those who watch are told of it. Nothing happens where the ids
/// have run out.
pub open spec fn pile_spawned(before: &Server, after: &Server, coords: Coords, amount: i32) -> bool {
    &&& after.config == before.config
    &&& after.robots == before.robots
    &&& after.next_robot_id == before.next_robot_id
    &&& after.shutdown == before.shutdown
    &&& after.grid.cells@ == before.grid.cells@
    &&& after.grid.robot_locs@ == before.grid.robot_locs@
    &&& after.grid.robot_strengths@ == before.grid.robot_strengths@
    &&& after.grid.cell_list() == before.grid.cell_list()
    &&& after.grid.guess() == before.grid.guess()
    &&& if before.grid.valuables_locs@.contains_key(coords) {
        &&& after.grid == before.grid
        &&& after.next_valuable_id == before.next_valuable_id
        &&& match valuable_place(before.valuables@, before.grid.valuables_locs@[coords]) {
            Some(i) => {
                &&& after.valuables@ == before.valuables@.update(
                    i,
                    Valuable {
                        amount: Valuable::topped_up(
                            before.valuables@[i].amount as int,
                            amount as int,
                        ) as i32,
                        ..before.valuables@[i]
                    },
                )
                &&& after.outbox@.len() == before.outbox@.len() + 1
                &&& after.outbox@.drop_last() == before.outbox@
                &&& after.outbox@.last() matches BroadcastMessage::ValuableUpdated {
                    valuable: told,
                }
                &&& after.valuables@[i].same_as(&told)
            },
            None => after.valuables == before.valuables && after.outbox == before.outbox,
        }
    } else if before.next_valuable_id < i64::MAX {
        let made = after.valuables@.last();
        &&& after.valuables@.len() == before.valuables@.len() + 1
        &&& after.valuables@.drop_last() == before.valuables@
        &&& made.id == before.next_valuable_id
        &&& made.coords() == coords
        &&& made.amount == amount
        &&& made.kind@ == "basic"@
        &&& after.next_valuable_id == before.next_valuable_id + 1
        &&& after.grid.valuables_locs@ == before.grid.valuables_locs@.insert(coords, made.id)
        &&& after.outbox@.len() == before.outbox@.len() + 1
        &&& after.outbox@.drop_last() == before.outbox@
        &&& after.outbox@.last() matches BroadcastMessage::ValuableCreated { valuable: told }
        &&& made.same_as(&told)
    } else {
        *after == *before
    }
}

/// What it makes of an engine that the robot with the given id blows up:
/// the robot leaves the world, and those who watch are told. Unless the
/// engine is set to drop nothing, what the robot drops is put down where
/// it stood. Nothing happens where the robot is not in the world.
pub open spec fn exploded(before: &Server, after: &Server, robot_id: i64, valuables: i32) -> bool {
    match robot_place(before.robots@, robot_id) {
        None => gone(before, after, robot_id),
        Some(i) => exists|left: Server, told: Server|
            gone(before, &left, robot_id) && #[trigger] told_more(
                &left,
                &told,
                BroadcastMessage::RobotDestroyed { robot_id: robot_id },
            ) && (if before.config.no_kill_drops {
                *after == told
            } else {
                pile_spawned(&told, after, before.robots@[i].coords(), valuables)
            }),
    }
}

/// What a hit makes of an engine: the target's hull goes down by the
/// damage, the target notes who hit it and from where, and those who watch
/// are told. There is no answer where the attacker is not in the world, and
/// the attack fails where the target is not.
pub open spec fn hit_landed(
    before: &Server,
    after: &Server,
    attacker_id: i64,
    target_id: i64,
    damage: i32,
    direction: i32,
    response: Option<Response>,
) -> bool {
    &&& after.config == before.config
    &&& after.grid == before.grid
    &&& after.valuables == before.valuables
    &&& after.next_robot_id == before.next_robot_id
    &&& after.next_valuable_id == before.next_valuable_id
    &&& after.shutdown == before.shutdown
    &&& match robot_place(before.robots@, attacker_id) {
        None => response is None && *after == *before,
        Some(_) => match robot_place(before.robots@, target_id) {
            None => response == Some(Response::Fail) && *after == *before,
            Some(t) => {
                &&& response == Some(
                    Response::AttackSuccess { target_id: target_id, damage: damage },
                )
                &&& after.robots@ == before.robots@.update(
                    t,
                    before.robots@[t].with_data(
                        RobotData {
                            hull_strength: hull_after(
                                before.robots@[t].data.hull_strength as int,
                                damage as int,
                            ) as i32,
                            attacked_by: attacker_id,
                            attacked_from: direction,
                            ..before.robots@[t].data
                        },
                    ),
                )
                &&& after.outbox@ == before.outbox@.push(
                    BroadcastMessage::RobotAttacked {
                        attacker_id: attacker_id,
                        target_id: target_id,
                    },
                )
            },
        },
    }
}

/// The direction that a target notes for a hit: the bearing of the planar
/// angle under which it sees the attacker, for a target that faces the
/// first direction; the direction drawn where the angle is not known.
pub open spec fn hit_direction(attack_angle: Option<i32>, drawn: Dir) -> i32 {
    match attack_angle {
        Some(angle) => bearing(Dir::Orient0, angle as int) as i32,
        None => drawn.degrees() as i32,
    }
}

/// What a request to attack makes of an engine: a hit lands, with a damage
/// between the least and the most that the attacker's weapon does.
pub open spec fn attack_handled(
    before: &Server,
    after: &Server,
    attacker_id: i64,
    target_id: i64,
    attack_angle: Option<i32>,
    response: Option<Response>,
) -> bool {
    match robot_place(before.robots@, attacker_id) {
        None => response is None && *after == *before,
        Some(a) => exists|damage: i32, drawn: Dir|
            weapon_min_damage(before.robots@[a].modules.m_weapons@) <= damage
                <= weapon_max_damage(before.robots@[a].modules.m_weapons@) && #[trigger] hit_landed(
                before,
                after,
                attacker_id,
                target_id,
                damage,
                hit_direction(attack_angle, drawn),
                response,
            ),
    }
}

/// What a request of the robot with the given id makes of an engine, and
/// what the engine answers.
pub open spec fn handled(
    before: &Server,
    after: &Server,
    robot_id: i64,
    request: Request,
    attack_angle: Option<i32>,
    response: Option<Response>,
) -> bool {
    match request {
        Request::Attack { target_id } => attack_handled(
            before,
            after,
            robot_id,
            target_id,
            attack_angle,
            response,
        ),
        Request::Exfiltrate { robot_id: leaving } => response is None && exfiltrated(
            before,
            after,
            leaving,
        ),
        Request::Explode { valuables } => response is None && exploded(
            before,
            after,
            robot_id,
            valuables,
        ),
        Request::Mine { valuable_id, amount } => mined_from(
            before,
            after,
            valuable_id,
            amount,
            response,
        ),
    }
}

/// What the tick of the robot at place `i` of the list makes of an engine:
/// the robot and the grid are as the robot's tick leaves them, and
/// `request` is what the robot asks.
pub open spec fn robot_stepped(
    before: &Server,
    after: &Server,
    i: int,
    target_angle: Option<i32>,
    request: Option<Request>,
) -> bool {
    &&& after.config == before.config
    &&& after.shutdown == before.shutdown
    &&& after.valuables == before.valuables
    &&& after.outbox == before.outbox
    &&& after.next_robot_id == before.next_robot_id
    &&& after.next_valuable_id == before.next_valuable_id
    &&& after.robots@ == before.robots@.update(i, after.robots@[i])
    &&& ticked(
        &before.robots@[i],
        &after.robots@[i],
        &before.grid,
        &after.grid,
        target_angle,
        request,
    )
}

/// What it makes of an engine that the robot at place `j` of the list
/// hears the engine's answer: only that robot changes.
pub open spec fn answered(before: &Server, after: &Server, j: int, response: Response) -> bool {
    &&& after.config == before.config
    &&& after.shutdown == before.shutdown
    &&& after.grid == before.grid
    &&& after.valuables == before.valuables
    &&& after.outbox == before.outbox
    &&& after.next_robot_id == before.next_robot_id
    &&& after.next_valuable_id == before.next_valuable_id
    &&& after.robots@ == before.robots@.update(j, after.robots@[j])
    &&& heard(&before.robots@[j], &after.robots@[j], response)
}

/// What it makes of an engine that the engine does what a robot asked, if
/// it asked anything.
pub open spec fn request_served(
    before: &Server,
    after: &Server,
    robot_id: i64,
    request: Option<Request>,
    response: Option<Response>,
) -> bool {
    match request {
        Some(asked) => handled(before, after, robot_id, asked, None, response),
        None => *after == *before && response is None,
    }
}

/// What it makes of an engine that the robot with the given id hears the
/// answer, if there is one and the robot is still in the world.
pub open spec fn answer_taken(
    before: &Server,
    after: &Server,
    robot_id: i64,
    response: Option<Response>,
) -> bool {
    match (response, robot_place(before.robots@, robot_id)) {
        (Some(answer), Some(j)) => answered(before, after, j, answer),
        _ => *after == *before,
    }
}

/// What it makes of an engine that those who watch are told how the robot
/// with the given id stands, if it is still in the world.
pub open spec fn reported(before: &Server, after: &Server, robot_id: i64) -> bool {
    &&& before.same_world(after)
    &&& match robot_place(before.robots@, robot_id) {
        Some(j) => {
            &&& after.outbox@.len() == before.outbox@.len() + 1
            &&& after.outbox@.drop_last() == before.outbox@
            &&& after.outbox@.last() matches BroadcastMessage::RobotMoved { robot: told }
            &&& before.robots@[j].same_as(&told)
        },
        None => after.outbox == before.outbox,
    }
}

/// What the turn of the robot with the given id makes of an engine: the
/// robot takes its tick, the engine does what the robot asks, the robot
/// hears the answer, and those who watch are told how the robot stands.
/// Nothing happens where the robot is not in the world.
pub open spec fn turn_taken(
    before: &Server,
    after: &Server,
    robot_id: i64,
    target_angle: Option<i32>,
) -> bool {
    match robot_place(before.robots@, robot_id) {
        None => *after == *before,
        Some(i) => exists|
            stepped: Server,
            served: Server,
            learned: Server,
            request: Option<Request>,
            response: Option<Response>,
        |
            robot_stepped(before, &stepped, i, target_angle, request) && #[trigger] request_served(
                &stepped,
                &served,
                robot_id,
                request,
                response,
            ) && #[trigger] answer_taken(&served, &learned, robot_id, response) && reported(
                &learned,
                after,
                robot_id,
            ),
    }
}

/// Whether `after` is the engine `before` after a search for a free cell:
/// nothing has changed but the bound within which the grid looks for free
/// cells.
pub open spec fn cell_sought(before: &Server, after: &Server) -> bool {
    &&& after.config == before.config
    &&& after.robots == before.robots
    &&& after.valuables == before.valuables
    &&& after.outbox == before.outbox
    &&& after.next_robot_id == before.next_robot_id
    &&& after.next_valuable_id == before.next_valuable_id
    &&& after.shutdown == before.shutdown
    &&& before.grid.same_but_guess(&after.grid)
}

/// Whether a list of choices is one that the engine draws for a new
/// robot: a scanner, the memory that goes with it, a collector, a power
/// unit that fits the collector, and a weapon.
pub open spec fn modules_drawn(choices: Seq<(String, String)>) -> bool {
    &&& choices.len() == 5
    &&& choices[0].0@ == "m_scanner"@
    &&& is_scanner_kind(choices[0].1@)
    &&& choices[1].0@ == "m_memory"@
    &&& choices[1].1@ == memory_for(choices[0].1@)
    &&& choices[2].0@ == "m_collector"@
    &&& is_collector_kind(choices[2].1@)
    &&& choices[3].0@ == "m_power"@
    &&& is_power_kind(choices[3].1@)
    &&& !(choices[2].1@ == "ultratech"@ && choices[3].1@ == "basic"@)
    &&& choices[4].0@ == "m_weapon"@
    &&& is_weapon_kind(choices[4].1@)
}

/// What the engine tells of the piles of a list that hold nothing: of each
/// that it is exhausted, in the order of the list.
pub open spec fn depletions(piles: Seq<Valuable>) -> Seq<BroadcastMessage>
    decreases piles.len(),
{
    if piles.len() == 0 {
        Seq::empty()
    } else {
        let rest = depletions(piles.drop_last());
        if piles.last().amount == 0 {
            rest.push(BroadcastMessage::ValuableDepleted { valuable_id: piles.last().id })
        } else {
            rest
        }
    }
}

/// What the sweep at the end of a tick makes of an engine: the piles that
/// hold nothing leave the list and the grid, and those who watch are told
/// of each.
pub open spec fn swept(before: &Server, after: &Server) -> bool {
    &&& after.config == before.config
    &&& after.robots == before.robots
    &&& after.next_robot_id == before.next_robot_id
    &&& after.next_valuable_id == before.next_valuable_id
    &&& after.shutdown == before.shutdown
    &&& after.grid.cells@ == before.grid.cells@
    &&& after.grid.robot_locs@ == before.grid.robot_locs@
    &&& after.grid.robot_strengths@ == before.grid.robot_strengths@
    &&& after.grid.cell_list() == before.grid.cell_list()
    &&& after.grid.guess() == before.grid.guess()
    &&& after.valuables@ == before.valuables@.filter(holds_something())
    &&& after.grid.valuables_locs@ == without_depleted(
        before.grid.valuables_locs@,
        before.valuables@,
    )
    &&& after.outbox@ == before.outbox@ + depletions(before.valuables@)
}

/// Whether a robot is as the engine makes robots, under the given id: a
/// robot as it is made, with modules that the engine draws.
pub open spec fn is_spawned(robot: &Robot, id: i64) -> bool {
    exists|choices: Seq<(String, String)>|
        modules_drawn(choices) && #[trigger] robot.newly_made(
            id,
            robot.coords(),
            robot.data.orientation,
            choices,
        )
}

/// Whether a pile is as the engine makes piles at random, under the given
/// id.
pub open spec fn is_spawned_pile(pile: &Valuable, id: i64) -> bool {
    &&& pile.id == id
    &&& 50 <= pile.amount < 5000
    &&& pile.kind@ == "basic"@
}

impl Server {
    /// What holds of the engine between ticks: the grid, the robots and the
    /// valuables are each as they can be, and the grid's index of robots
    /// holds the engine's robots, each where it stands, and no others.
    pub open spec fn wf(&self) -> bool {
        &&& self.grid.wf()
        &&& robots_wf(self.robots@, self.next_robot_id)
        &&& valuables_wf(self.valuables@, self.next_valuable_id)
        &&& index_matches(self.grid.robot_locs@, self.robots@)
    }

    /// Every pile of the engine holds something between nothing and the
    /// most that a pile holds.
    pub proof fn lemma_piles_in_range(&self, i: int)
        requires
            self.wf(),
            0 <= i < self.valuables@.len(),
        ensures
            0 <= self.valuables@[i].amount <= MAX_AMOUNT,
    {
        assert(self.valuables@[i].wf());
    }

    /// Every robot of the engine has a power between nothing and the most
    /// that it can hold, carries no more than it can, and knows no more
    /// cells than its memory holds.
    pub proof fn lemma_robots_in_bounds(&self, i: int)
        requires
            self.wf(),
            0 <= i < self.robots@.len(),
        ensures
            0 <= self.robots@[i].data.power <= self.robots@[i].data.max_power,
            self.robots@[i].data.val_inventory <= self.robots@[i].data.max_val_inventory,
            self.robots@[i].known_cells@.len() <= memory_size(self.robots@[i].modules.m_memory@),
    {
        assert(self.robots@[i].wf());
    }

    /// Each robot of the engine stands in the grid's index at its own
    /// place, and no two robots of the engine stand on one cell.
    pub proof fn lemma_robots_apart(&self, i: int, j: int)
        requires
            self.wf(),
            0 <= i < self.robots@.len(),
            0 <= j < self.robots@.len(),
        ensures
            self.grid.robot_locs@.contains_key(self.robots@[i].coords()),
            self.grid.robot_locs@[self.robots@[i].coords()] == self.robots@[i].data.id,
            i != j ==> self.robots@[i].coords() != self.robots@[j].coords(),
    {
        reveal(listed);
        assert(self.robots@[i].wf() && self.robots@[j].wf());
        if i < j {
            assert(self.robots@[i].data.id < self.robots@[j].data.id);
        } else if j < i {
            assert(self.robots@[j].data.id < self.robots@[i].data.id);
        }
    }

    /// Whether `other` is this engine but for what it has to tell.
    pub open spec fn same_world(&self, other: &Server) -> bool {
        &&& other.config == self.config
        &&& other.grid == self.grid
        &&& other.robots == self.robots
        &&& other.valuables == self.valuables
        &&& other.next_robot_id == self.next_robot_id
        &&& other.next_valuable_id == self.next_valuable_id
        &&& other.shutdown == self.shutdown
    }

    /// Create a new server for a grid, with no robot and no valuable yet.
    pub fn new(config: ServerConfig, grid: Grid) -> (server: Server)
        requires
            grid.wf(),
            forall|c: Coords| !grid.robot_locs@.contains_key(c),
        ensures
            server.wf(),
            server.config == config,
            server.grid == grid,
            server.robots@.len() == 0,
            server.valuables@.len() == 0,
            server.outbox@.len() == 0,
            server.next_robot_id == 1,
            server.next_valuable_id == 1,
            !server.shutdown,
    {
        Server {
            config,
            grid,
            robots: Vec::new(),
            valuables: Vec::new(),
            outbox: Vec::new(),
            next_robot_id: 1,
            next_valuable_id: 1,
            shutdown: false,
        }
    }

    /// Where in the list the robot with the given id stands.
    pub fn robot_index(&self, id: i64) -> (place: Option<usize>)
        ensures
            match place {
                Some(i) => i < self.robots@.len() && self.robots@[i as int].data.id == id,
                None => forall|i: int|
                    0 <= i < self.robots@.len() ==> (#[trigger] self.robots@[i]).data.id != id,
            },
            robots_wf(self.robots@, self.next_robot_id) ==> robot_place(self.robots@, id) == (
            match place {
                Some(i) => Some(i as int),
                None => None,
            }),
    {
        let mut i: usize = 0;
        while i < self.robots.len()
            invariant
                i <= self.robots.len(),
                forall|k: int| 0 <= k < i ==> (#[trigger] self.robots@[k]).data.id != id,
            decreases self.robots.len() - i,
        {
            if self.robots[i].data.id == id {
                proof {
                    if robots_wf(self.robots@, self.next_robot_id) {
                        lemma_robot_place(self.robots@, self.next_robot_id, i as int);
                    }
                }
                return Some(i);
            }
            i = i + 1;
        }
        None
    }

    /// Where in the list the valuable with the given id stands.
    pub fn valuable_index(&self, id: i64) -> (place: Option<usize>)
        ensures
            match place {
                Some(i) => i < self.valuables@.len() && self.valuables@[i as int].id == id,
                None => forall|i: int|
                    0 <= i < self.valuables@.len() ==> (#[trigger] self.valuables@[i]).id != id,
            },
            valuables_wf(self.valuables@, self.next_valuable_id) ==> valuable_place(
                self.valuables@,
                id,
            ) == (match place {
                Some(i) => Some(i as int),
                None => None,
            }),
    {
        let mut i: usize = 0;
        while i < self.valuables.len()
            invariant
                i <= self.valuables.len(),
                forall|k: int| 0 <= k < i ==> (#[trigger] self.valuables@[k]).id != id,
            decreases self.valuables.len() - i,
        {
            if self.valuables[i].id == id {
                proof {
                    if valuables_wf(self.valuables@, self.next_valuable_id) {
                        lemma_valuable_place(self.valuables@, self.next_valuable_id, i as int);
                    }
                }
                return Some(i);
            }
            i = i + 1;
        }
        None
    }

    /// Takes in a robot that was made elsewhere, as one kept in a store. The
    /// robot is taken where it is in a state that robots can be in, its id
    /// is none that the engine has given or could have given, and no robot
    /// stands where it stands.
    pub fn take_in_robot(&mut self, robot: Robot) -> (taken: bool)
        requires
            old(self).wf(),
        ensures
            final(self).wf(),
            taken == (robot.wf() && old(self).next_robot_id <= robot.data.id < i64::MAX && !old(self).grid.robot_locs@.contains_key(robot.coords())),
            !taken ==> *final(self) == *old(self),
            taken ==> {
                &&& final(self).robots@ == old(self).robots@.push(robot)
                &&& final(self).next_robot_id == robot.data.id + 1
                &&& final(self).grid.robot_position(robot.data.id) == Some(robot.coords())
                &&& final(self).grid.cells@ == old(self).grid.cells@
                &&& final(self).grid.valuables_locs@ == old(self).grid.valuables_locs@
                &&& final(self).valuables == old(self).valuables
                &&& final(self).outbox == old(self).outbox
                &&& final(self).next_valuable_id == old(self).next_valuable_id
                &&& final(self).config == old(self).config
                &&& final(self).shutdown == old(self).shutdown
            },
    {
        if !robot.is_well_formed() || robot.data.id < self.next_robot_id || robot.data.id
            == i64::MAX {
            return false;
        }
        let place = robot.get_coords();
        if self.grid.robot_locs.contains_key(&place) {
            return false;
        }
        let ghost before = self.grid;
        self.grid.add_robot(&robot);
        proof {
            lemma_index_after_join(&before, &self.grid, self.robots@, self.next_robot_id, robot);
        }
        self.next_robot_id = robot.data.id + 1;
        self.robots.push(robot);
        true
    }

    /// Takes in a valuable that was made elsewhere, as one kept in a store.
    /// The valuable is taken where it holds what a pile can hold and its id
    /// is none that the engine has given or could have given.
    pub fn take_in_valuable(&mut self, valuable: Valuable) -> (taken: bool)
        requires
            old(self).wf(),
        ensures
            final(self).wf(),
            taken == (valuable.wf() && old(self).next_valuable_id <= valuable.id < i64::MAX),
            !taken ==> *final(self) == *old(self),
            taken ==> {
                &&& final(self).valuables@ == old(self).valuables@.push(valuable)
                &&& final(self).next_valuable_id == valuable.id + 1
                &&& final(self).grid.valuables_locs@ == old(self).grid.valuables_locs@.insert(
                    valuable.coords(),
                    valuable.id,
                )
                &&& final(self).grid.cells@ == old(self).grid.cells@
                &&& final(self).grid.robot_locs@ == old(self).grid.robot_locs@
                &&& final(self).robots == old(self).robots
                &&& final(self).outbox == old(self).outbox
                &&& final(self).next_robot_id == old(self).next_robot_id
                &&& final(self).config == old(self).config
                &&& final(self).shutdown == old(self).shutdown
            },
    {
        if valuable.amount < 0 || valuable.amount > MAX_AMOUNT || valuable.id
            < self.next_valuable_id || valuable.id == i64::MAX {
            return false;
        }
        self.grid.add_valuable(Coords { q: valuable.q, r: valuable.r }, valuable.id);
        self.next_valuable_id = valuable.id + 1;
        self.valuables.push(valuable);
        true
    }

    /// The kind of memory that goes with a kind of scanner.
    pub fn memory_for_scanner(scanner: &str) -> (memory: &'static str)
        ensures
            memory@ == memory_for(scanner@),
    {
        if same_name(scanner, "triscan_advanced") || same_name(scanner, "triscan_ultra")
            || same_name(scanner, "boxium_started") {
            "plus"
        } else if same_name(scanner, "boxium_advanced") {
            "ikito"
        } else if same_name(scanner, "boxium_ultra") || same_name(scanner, "omni_basic")
            || same_name(scanner, "omni_ultra") {
            "jindai"
        } else {
            "basic"
        }
    }

    /// The kind of power unit that a robot gets for which `power` was drawn.
    pub fn power_for_collector(collector: &str, power: String) -> (fitted: String)
        ensures
            fitted@ == power_for(collector@, power@),
    {
        if same_name(collector, "ultratech") && same_name(power.as_str(), "basic") {
            String::from_str("plus")
        } else {
            power
        }
    }

    /// Draws the modules of a new robot: a scanner with the memory that
    /// goes with it, a collector, a power unit that fits the collector, and
    /// a weapon.
    pub fn random_modules() -> (modules: Vec<(String, String)>)
        ensures
            modules_drawn(modules@),
    {
        let mut modules: Vec<(String, String)> = Vec::new();
        let scanner_module = ScannerModule::get_random();
        let memory_module = Self::memory_for_scanner(scanner_module.as_str());
        modules.push((String::from_str("m_scanner"), scanner_module));
        modules.push((String::from_str("m_memory"), String::from_str(memory_module)));

        let collector_module = CollectorModule::get_random();
        let power_module = Self::power_for_collector(
            collector_module.as_str(),
            PowerModule::get_random(),
        );
        proof {
            reveal_strlit("plus");
            reveal_strlit("basic");
            assert("plus"@.len() == 4);
            assert("basic"@.len() == 5);
        }
        modules.push((String::from_str("m_collector"), collector_module));
        modules.push((String::from_str("m_power"), power_module));

        let weapon_module = WeaponModule::get_random();
        modules.push((String::from_str("m_weapon"), weapon_module));
        modules
    }

    /// Spawn a new robot by finding an open, unoccupied cell. There is no
    /// new robot where no cell is free.
    pub fn spawn_robot(&mut self) -> (spawned: bool)
        requires
            old(self).wf(),
        ensures
            final(self).wf(),
            final(self).config == old(self).config,
            final(self).valuables == old(self).valuables,
            final(self).next_valuable_id == old(self).next_valuable_id,
            final(self).shutdown == old(self).shutdown,
            final(self).grid.cells@ == old(self).grid.cells@,
            final(self).grid.valuables_locs@ == old(self).grid.valuables_locs@,
            final(self).grid.cell_list() == old(self).grid.cell_list(),
            spawned <==> old(self).next_robot_id < i64::MAX && exists|c: Coords|
                old(self).grid.vacant_open(c),
            !spawned ==> cell_sought(old(self), final(self)),
            spawned ==> {
                let robot = final(self).robots@.last();
                &&& final(self).robots@.len() == old(self).robots@.len() + 1
                &&& final(self).robots@.drop_last() == old(self).robots@
                &&& robot.data.id == old(self).next_robot_id
                &&& final(self).next_robot_id == old(self).next_robot_id + 1
                &&& old(self).grid.vacant_open(robot.coords())
                &&& is_spawned(&robot, old(self).next_robot_id)
                &&& final(self).grid.robot_locs@ == (match old(self).grid.robot_position(
                    robot.data.id,
                ) {
                    Some(p) => old(self).grid.robot_locs@.remove(p),
                    None => old(self).grid.robot_locs@,
                }).insert(robot.coords(), robot.data.id)
                &&& final(self).grid.robot_strengths@ == old(self).grid.robot_strengths@.insert(
                    robot.data.id,
                    weapon_max_damage(robot.modules.m_weapons@) as i32,
                )
                &&& final(self).outbox@.len() == old(self).outbox@.len() + 1
                &&& final(self).outbox@.drop_last() == old(self).outbox@
                &&& final(self).outbox@.last() matches BroadcastMessage::RobotSpawned { robot: told }
                &&& robot.same_as(&told)
            },
    {
        if self.next_robot_id == i64::MAX {
            return false;
        }
        let coords = match self.grid.get_random_open_cell() {
            Some(c) => c,
            None => {
                return false;
            },
        };
        let orientation: Dir = Dir::sample();
        let modules = Self::random_modules();

        let ghost choices = modules@;
        let robot = Robot::new(self.next_robot_id, coords, orientation, Some(modules));
        assert(modules_drawn(choices) && robot.newly_made(
            self.next_robot_id,
            robot.coords(),
            robot.data.orientation,
            choices,
        ));

        let ghost before = self.grid;
        self.grid.add_robot(&robot);
        proof {
            lemma_index_after_join(&before, &self.grid, self.robots@, self.next_robot_id, robot);
        }
        self.outbox.push(BroadcastMessage::RobotSpawned { robot: robot.snapshot() });
        self.next_robot_id = self.next_robot_id + 1;
        proof {
            assert(self.robots@.push(robot).drop_last() =~= self.robots@);
            assert(old(self).outbox@.push(self.outbox@.last()).drop_last() =~= old(self).outbox@);
        }
        self.robots.push(robot);
        true
    }
    /// Spawn a new valuable at a given location for a given amount: a pile
    /// that lies there is topped up, else a new pile is made.
    pub fn spawn_valuable(&mut self, coords: &Coords, amount: i32)
        requires
            old(self).wf(),
            0 <= amount <= MAX_AMOUNT,
        ensures
            final(self).wf(),
            pile_spawned(old(self), final(self), *coords, amount),
    {
        let there: Option<i64> = match self.grid.get_valuable_id_by_loc(coords) {
            Some(id) => Some(*id),
            None => None,
        };
        match there {
            Some(valuable_id) => {
                if let Some(i) = self.valuable_index(valuable_id) {
                    let ghost before = self.valuables@;
                    self.valuables[i].add_to_amount(amount);
                    let told = self.valuables[i].snapshot();
                    self.outbox.push(BroadcastMessage::ValuableUpdated { valuable: told });
                    proof {
                        assert(old(self).outbox@.push(self.outbox@.last()).drop_last() =~= old(self).outbox@);
                        assert forall|a: int, b: int|
                            0 <= a < b < self.valuables@.len() implies (
                        #[trigger] self.valuables@[a]).id < (#[trigger] self.valuables@[b]).id by {
                            assert(before[a].id < before[b].id);
                        }
                    }
                }
            },
            None => {
                if self.next_valuable_id == i64::MAX {
                    return ;
                }
                let valuable = Valuable::new(self.next_valuable_id, *coords, amount);
                self.grid.add_valuable(*coords, valuable.id);
                self.outbox.push(
                    BroadcastMessage::ValuableCreated { valuable: valuable.snapshot() },
                );
                self.next_valuable_id = self.next_valuable_id + 1;
                proof {
                    assert(self.valuables@.push(valuable).drop_last() =~= self.valuables@);
                    assert(old(self).outbox@.push(self.outbox@.last()).drop_last() =~= old(self).outbox@);
                }
                self.valuables.push(valuable);
            },
        }
    }

    /// Spawn a new valuable in a random open location with a random amount.
    /// There is no new valuable where no cell is free.
    pub fn spawn_random_valuable(&mut self) -> (spawned: bool)
        requires
            old(self).wf(),
        ensures
            final(self).wf(),
            final(self).config == old(self).config,
            final(self).robots == old(self).robots,
            final(self).next_robot_id == old(self).next_robot_id,
            final(self).shutdown == old(self).shutdown,
            final(self).grid.cells@ == old(self).grid.cells@,
            final(self).grid.robot_locs@ == old(self).grid.robot_locs@,
            final(self).grid.robot_strengths@ == old(self).grid.robot_strengths@,
            final(self).grid.cell_list() == old(self).grid.cell_list(),
            spawned <==> old(self).next_valuable_id < i64::MAX && exists|c: Coords|
                old(self).grid.vacant_open(c),
            !spawned ==> cell_sought(old(self), final(self)),
            spawned ==> {
                let made = final(self).valuables@.last();
                &&& final(self).valuables@.len() == old(self).valuables@.len() + 1
                &&& final(self).valuables@.drop_last() == old(self).valuables@
                &&& is_spawned_pile(&made, old(self).next_valuable_id)
                &&& final(self).next_valuable_id == old(self).next_valuable_id + 1
                &&& old(self).grid.vacant_open(made.coords())
                &&& exists|sought: Server|
                    cell_sought(old(self), &sought) && #[trigger] pile_spawned(
                        &sought,
                        final(self),
                        made.coords(),
                        made.amount,
                    )
            },
    {
        if self.next_valuable_id == i64::MAX {
            return false;
        }
        let coords = match self.grid.get_random_open_cell() {
            Some(c) => c,
            None => {
                return false;
            },
        };
        let amount: i32 = random_in_range(50, 5000);
        let ghost sought = *self;

        self.spawn_valuable(&coords, amount);
        proof {
            let made = self.valuables@.last();
            assert(made.coords() == coords);
            assert(made.amount == amount);
            assert(cell_sought(old(self), &sought) && pile_spawned(
                &sought,
                self,
                made.coords(),
                made.amount,
            ));
        }
        true
    }

    /// Check all the valuables; those that are exhausted leave the engine
    /// and the grid, and those who watch are told of each.
    pub fn destroy_depleted_valuables(&mut self)
        requires
            old(self).wf(),
        ensures
            final(self).wf(),
            swept(old(self), final(self)),
    {
        let mut kept: Vec<Valuable> = Vec::new();
        let mut all: Vec<Valuable> = Vec::new();
        core::mem::swap(&mut all, &mut self.valuables);
        let ghost piles = all@;
        let mut i: usize = 0;
        proof {
            assert(piles.take(0).filter(holds_something()) =~= Seq::<Valuable>::empty());
            assert(piles.take(0) =~= Seq::<Valuable>::empty());
            assert(self.outbox@ =~= self.outbox@ + depletions(piles.take(0)));
        }
        while i < all.len()
            invariant
                i <= all.len(),
                all@ == piles,
                piles == old(self).valuables@,
                valuables_wf(piles, self.next_valuable_id),
                self.grid.wf(),
                self.config == old(self).config,
                self.robots == old(self).robots,
                self.next_robot_id == old(self).next_robot_id,
                self.next_valuable_id == old(self).next_valuable_id,
                self.shutdown == old(self).shutdown,
                self.grid.cells@ == old(self).grid.cells@,
                self.grid.robot_locs@ == old(self).grid.robot_locs@,
                self.grid.robot_strengths@ == old(self).grid.robot_strengths@,
                self.grid.cell_list() == old(self).grid.cell_list(),
                self.grid.guess() == old(self).grid.guess(),
                kept@ == piles.take(i as int).filter(holds_something()),
                self.grid.valuables_locs@ == without_depleted(
                    old(self).grid.valuables_locs@,
                    piles.take(i as int),
                ),
                self.outbox@ == old(self).outbox@ + depletions(piles.take(i as int)),
            decreases all.len() - i,
        {
            proof {
                piles.lemma_take_succ_push(i as int);
                piles.take(i as int).lemma_filter_push(piles[i as int], holds_something());
                assert(piles.take(i + 1).drop_last() =~= piles.take(i as int));
                assert(piles.take(i + 1).last() == piles[i as int]);
            }
            if all[i].amount == 0 {
                let place = Coords { q: all[i].q, r: all[i].r };
                self.grid.remove_valuable_by_loc(&place);
                self.outbox.push(BroadcastMessage::ValuableDepleted { valuable_id: all[i].id });
                assert(self.outbox@ =~= old(self).outbox@ + depletions(piles.take(i + 1)));
            } else {
                kept.push(all[i].snapshot_exact());
            }
            i = i + 1;
        }
        proof {
            piles.lemma_take_len();
            lemma_filter_keeps_order(piles, self.next_valuable_id);
        }
        self.valuables = kept;
    }

    /// Mine a valuable specified by id for a given amount
    /// Return the amount mined in a server response
    pub fn mine_for_robot(&mut self, _robot_id: &i64, valuable_id: i64, amount: i32) -> (response:
        Option<Response>)
        requires
            old(self).wf(),
        ensures
            final(self).wf(),
            mined_from(old(self), final(self), valuable_id, amount, response),
    {
        let i = match self.valuable_index(valuable_id) {
            Some(i) => i,
            None => {
                return Some(Response::Fail);
            },
        };
        if amount < 0 {
            return Some(Response::Fail);
        }
        let ghost before = self.valuables@;
        let mined_amount = self.valuables[i].mine(amount);
        proof {
            assert forall|a: int, b: int| 0 <= a < b < self.valuables@.len() implies (
            #[trigger] self.valuables@[a]).id < (#[trigger] self.valuables@[b]).id by {
                assert(before[a].id < before[b].id);
            }
        }

        Some(Response::Mined { valuable_id, amount: mined_amount })
    }

    /// Takes the robot with the given id out of the list of robots.
    fn remove_robot(&mut self, robot_id: i64) -> (removed: Option<Robot>)
        requires
            robots_wf(old(self).robots@, old(self).next_robot_id),
        ensures
            robots_wf(final(self).robots@, final(self).next_robot_id),
            final(self).config == old(self).config,
            final(self).grid == old(self).grid,
            final(self).valuables == old(self).valuables,
            final(self).outbox == old(self).outbox,
            final(self).next_robot_id == old(self).next_robot_id,
            final(self).next_valuable_id == old(self).next_valuable_id,
            final(self).shutdown == old(self).shutdown,
            match robot_place(old(self).robots@, robot_id) {
                Some(i) => removed == Some(old(self).robots@[i]) && final(self).robots@ == old(self).robots@.remove(i),
                None => removed is None && final(self).robots == old(self).robots,
            },
            forall|k: int|
                0 <= k < final(self).robots@.len() ==> (#[trigger] final(self).robots@[k]).data.id
                    != robot_id,
    {
        match self.robot_index(robot_id) {
            Some(i) => {
                let ghost before = self.robots@;
                let robot = self.robots.remove(i);
                proof {
                    assert forall|k: int| 0 <= k < self.robots@.len() implies (
                    #[trigger] self.robots@[k]).data.id != robot_id && self.robots@[k].wf()
                        && self.robots@[k].data.id < self.next_robot_id by {
                        if k < i {
                            assert(self.robots@[k] == before[k]);
                            assert(before[k].data.id < before[i as int].data.id);
                        } else {
                            assert(self.robots@[k] == before[k + 1]);
                            assert(before[i as int].data.id < before[k + 1].data.id);
                        }
                    }
                    assert forall|a: int, b: int| 0 <= a < b < self.robots@.len() implies (
                    #[trigger] self.robots@[a]).data.id < (#[trigger] self.robots@[b]).data.id by {
                        let a0 = if a < i {
                            a
                        } else {
                            a + 1
                        };
                        let b0 = if b < i {
                            b
                        } else {
                            b + 1
                        };
                        assert(self.robots@[a] == before[a0]);
                        assert(self.robots@[b] == before[b0]);
                        assert(before[a0].data.id < before[b0].data.id);
                    }
                }
                Some(robot)
            },
            None => None,
        }
    }

    /// Takes the robot with the given id out of the grid and out of the
    /// list of robots.
    fn leave_world(&mut self, robot_id: i64) -> (removed: Option<Robot>)
        requires
            old(self).wf(),
        ensures
            final(self).wf(),
            gone(old(self), final(self), robot_id),
            removed == (match robot_place(old(self).robots@, robot_id) {
                Some(i) => Some(old(self).robots@[i]),
                None => None,
            }),
    {
        let ghost before = self.grid;
        let ghost robots = self.robots@;
        self.grid.remove_robot_by_id(&robot_id);
        proof {
            match robot_place(robots, robot_id) {
                Some(i) => {
                    lemma_index_after_leave(&before, &self.grid, robots, self.next_robot_id, i);
                },
                None => {
                    if before.robot_position(robot_id) is Some {
                        reveal(listed);
                        let p = before.robot_position(robot_id)->0;
                        assert(before.robot_locs@.contains_key(p) && before.robot_locs@[p]
                            == robot_id);
                        assert(listed(robots, before.robot_locs@[p]));
                        let k = choose|k: int|
                            0 <= k < robots.len() && (#[trigger] robots[k]).data.id
                                == before.robot_locs@[p];
                    }
                },
            }
        }
        self.remove_robot(robot_id)
    }

    /// Exfiltrate the robot by removing it from the grid and our own list of robots
    pub fn handle_exfiltrate_request(&mut self, robot_id: &i64) -> (response: Option<Response>)
        requires
            old(self).wf(),
        ensures
            final(self).wf(),
            response is None,
            exfiltrated(old(self), final(self), *robot_id),
    {
        self.leave_world(*robot_id);
        let ghost left = *self;

        self.outbox.push(BroadcastMessage::RobotExfiltrated { robot_id: *robot_id });
        assert(gone(old(self), &left, *robot_id) && told_more(
            &left,
            self,
            BroadcastMessage::RobotExfiltrated { robot_id: *robot_id },
        ));

        None
    }

    /// Explode the robot by removing it from the grid and our own list of robots
    /// and creating a valuable at its location
    pub fn handle_robot_explosion(&mut self, robot_id: &i64, valuables: i32) -> (response: Option<
        Response,
    >)
        requires
            old(self).wf(),
            0 <= valuables <= MAX_AMOUNT,
        ensures
            final(self).wf(),
            response is None,
            exploded(old(self), final(self), *robot_id, valuables),
            final(self).config == old(self).config,
            final(self).next_robot_id == old(self).next_robot_id,
            final(self).shutdown == old(self).shutdown,
            final(self).grid.cells@ == old(self).grid.cells@,
            final(self).grid.robot_position(*robot_id) is None,
            forall|k: int|
                0 <= k < final(self).robots@.len() ==> (#[trigger] final(self).robots@[k]).data.id
                    != *robot_id,
            final(self).robots@.len() <= old(self).robots@.len(),
            outbox_grown(old(self).outbox@, final(self).outbox@),
    {
        let robot = self.leave_world(*robot_id);
        let ghost left = *self;

        let coords: Coords = match robot {
            Some(robot) => robot.get_coords(),
            None => {
                return None;
            },
        };

        self.outbox.push(BroadcastMessage::RobotDestroyed { robot_id: *robot_id });
        let ghost told = *self;
        assert(told_more(&left, &told, BroadcastMessage::RobotDestroyed { robot_id: *robot_id }));

        if !self.config.no_kill_drops {
            self.spawn_valuable(&coords, valuables);
        }
        proof {
            let n = old(self).outbox@.len() as int;
            if self.outbox@.len() > told.outbox@.len() {
                assert(self.outbox@.drop_last() == told.outbox@);
                assert forall|k: int| 0 <= k < told.outbox@.len() implies self.outbox@[k]
                    == told.outbox@[k] by {
                    assert(self.outbox@.drop_last()[k] == self.outbox@[k]);
                }
            } else {
                assert(self.outbox@ == told.outbox@);
            }
            assert forall|k: int| 0 <= k < n implies self.outbox@[k] == old(self).outbox@[k] by {
                assert(told.outbox@[k] == old(self).outbox@[k]);
                assert(self.outbox@[k] == told.outbox@[k]);
            }
            assert(outbox_grown(old(self).outbox@, self.outbox@));
        }
        None
    }

    /// Lowers the hull of the robot at place `t` of the list by the damage
    /// of a hit, and lets the robot note who hit it and from where.
    fn hit_listed(&mut self, t: usize, attacker_id: i64, damage: i32, direction: i32)
        requires
            old(self).wf(),
            t < old(self).robots@.len(),
        ensures
            final(self).wf(),
            final(self).config == old(self).config,
            final(self).shutdown == old(self).shutdown,
            final(self).grid == old(self).grid,
            final(self).valuables == old(self).valuables,
            final(self).outbox == old(self).outbox,
            final(self).next_robot_id == old(self).next_robot_id,
            final(self).next_valuable_id == old(self).next_valuable_id,
            final(self).robots@.len() == old(self).robots@.len(),
            final(self).robots@[t as int] == old(self).robots@[t as int].with_data(
                RobotData {
                    hull_strength: hull_after(
                        old(self).robots@[t as int].data.hull_strength as int,
                        damage as int,
                    ) as i32,
                    attacked_by: attacker_id,
                    attacked_from: direction,
                    ..old(self).robots@[t as int].data
                },
            ),
            forall|k: int|
                0 <= k < old(self).robots@.len() && k != t ==> final(self).robots@[k] == old(self).robots@[k],
    {
        let ghost before = self.robots@;
        let hull: i64 = self.robots[t].data.hull_strength as i64 - damage as i64;
        let left: i32 = if hull < i32::MIN as i64 {
            i32::MIN
        } else if hull > i32::MAX as i64 {
            i32::MAX
        } else {
            hull as i32
        };
        self.robots[t].data.hull_strength = left;
        self.robots[t].record_attack(attacker_id, direction);
        proof {
            assert forall|a: int, b: int| 0 <= a < b < self.robots@.len() implies (
            #[trigger] self.robots@[a]).data.id < (#[trigger] self.robots@[b]).data.id by {
                assert(before[a].data.id < before[b].data.id);
            }
            assert forall|k: int| 0 <= k < self.robots@.len() implies (
            #[trigger] self.robots@[k]).wf() && self.robots@[k].data.id
                < self.next_robot_id by {
                assert(before[k].wf());
            }
            lemma_index_after_change(self.grid.robot_locs@, before, self.robots@);
        }
    }

    /// What a hit does: the target's hull goes down by the damage, and the
    /// target notes who hit it and from where. There is no answer where the
    /// attacker is not in the world, and the attack fails where the target
    /// is not.
    pub fn apply_attack(&mut self, attacker_id: &i64, target_id: &i64, damage: i32, direction: i32) -> (response:
        Option<Response>)
        requires
            old(self).wf(),
        ensures
            final(self).wf(),
            hit_landed(old(self), final(self), *attacker_id, *target_id, damage, direction, response),
    {
        if self.robot_index(*attacker_id).is_none() {
            return None;
        }
        let t = match self.robot_index(*target_id) {
            Some(t) => t,
            None => {
                return Some(Response::Fail);
            },
        };
        // inflict damage to the target and then find the direction of the attack
        // and register that as well
        self.hit_listed(t, *attacker_id, damage, direction);
        let ghost hit = *self;
        assert(hit.wf());

        self.outbox.push(
            BroadcastMessage::RobotAttacked { attacker_id: *attacker_id, target_id: *target_id },
        );
        assert(self.robots == hit.robots && self.grid == hit.grid && self.valuables
            == hit.valuables);
        assert(self.wf());
        assert(self.robots@ =~= old(self).robots@.update(t as int, self.robots@[t as int]));

        Some(Response::AttackSuccess { target_id: *target_id, damage })
    }

    /// Handle a robot attack request: the damage is drawn between the least
    /// and the most that the attacker's weapon does. `attack_angle` is the
    /// planar angle in whole degrees under which the target sees the
    /// attacker; where the caller cannot tell it, a direction is drawn.
    pub fn handle_attack_request(
        &mut self,
        attacker_id: &i64,
        target_id: &i64,
        attack_angle: Option<i32>,
    ) -> (response: Option<Response>)
        requires
            old(self).wf(),
        ensures
            final(self).wf(),
            attack_handled(
                old(self),
                final(self),
                *attacker_id,
                *target_id,
                attack_angle,
                response,
            ),
    {
        let a = match self.robot_index(*attacker_id) {
            Some(a) => a,
            None => {
                return None;
            },
        };
        let min_power = WeaponModule::get_min_damage(self.robots[a].modules.m_weapons.as_str());
        let max_power = WeaponModule::get_max_damage(self.robots[a].modules.m_weapons.as_str());

        let damage: i32 = random_in_range(min_power, max_power + 1);

        let ghost mut drawn = Dir::Orient0;
        let attack_dir: i32 = match attack_angle {
            Some(angle) => get_bearing(Dir::Orient0, angle),
            None => {
                let dir = Dir::get_random();
                proof {
                    drawn = dir;
                }
                dir.to_degrees()
            },
        };

        let response = self.apply_attack(attacker_id, target_id, damage, attack_dir);
        assert(hit_landed(
            old(self),
            self,
            *attacker_id,
            *target_id,
            damage,
            hit_direction(attack_angle, drawn),
            response,
        ));
        response
    }

    /// When we tick a robot, it may ask the server to do something
    /// This is usually because robots do not have direct access to other
    /// robots or valuables.  So it must ask the server to do things like
    /// mining or shooting at others
    pub fn handle_request_for_robot(
        &mut self,
        robot_id: &i64,
        request: Request,
        attack_angle: Option<i32>,
    ) -> (response: Option<Response>)
        requires
            old(self).wf(),
            request matches Request::Explode { valuables } ==> 0 <= valuables <= MAX_AMOUNT,
        ensures
            final(self).wf(),
            handled(old(self), final(self), *robot_id, request, attack_angle, response),
            final(self).config == old(self).config,
            final(self).shutdown == old(self).shutdown,
            final(self).grid.cells@ == old(self).grid.cells@,
            final(self).next_robot_id == old(self).next_robot_id,
            final(self).robots@.len() <= old(self).robots@.len(),
            outbox_grown(old(self).outbox@, final(self).outbox@),
    {
        match request {
            Request::Attack { target_id } => {
                self.handle_attack_request(robot_id, &target_id, attack_angle)
            },
            Request::Exfiltrate { robot_id } => {
                let response = self.handle_exfiltrate_request(&robot_id);
                response
            },
            Request::Explode { valuables } => self.handle_robot_explosion(robot_id, valuables),
            Request::Mine { valuable_id, amount } => self.mine_for_robot(
                robot_id,
                valuable_id,
                amount,
            ),
        }
    }

    /// Lets the robot at place `i` of the list take its tick.
    fn tick_listed(&mut self, i: usize, target_angle: Option<i32>) -> (request: Option<Request>)
        requires
            old(self).wf(),
            i < old(self).robots@.len(),
        ensures
            final(self).wf(),
            robot_stepped(old(self), final(self), i as int, target_angle, request),
            final(self).grid.cells@ == old(self).grid.cells@,
            final(self).grid.valuables_locs@ == old(self).grid.valuables_locs@,
            final(self).robots@.len() == old(self).robots@.len(),
            forall|k: int|
                0 <= k < old(self).robots@.len() ==> (#[trigger] final(self).robots@[k]).data.id
                    == old(self).robots@[k].data.id,
            match request {
                None => true,
                Some(Request::Attack { target_id }) => false,
                Some(Request::Exfiltrate { robot_id }) => robot_id == old(self).robots@[i as int].data.id,
                Some(Request::Explode { valuables }) => 0 <= valuables <= MAX_AMOUNT,
                Some(Request::Mine { valuable_id, amount }) => {
                    let robot = final(self).robots@[i as int];
                    &&& 0 < amount <= robot.data.max_val_inventory - robot.data.val_inventory
                    &&& robot.data.mined_amount + amount <= i32::MAX
                },
            },
    {
        let ghost before = self.robots@;
        let ghost grid_before = self.grid;
        let request = self.robots[i].tick(&mut self.grid, target_angle);
        proof {
            assert forall|a: int, b: int| 0 <= a < b < self.robots@.len() implies (
            #[trigger] self.robots@[a]).data.id < (#[trigger] self.robots@[b]).data.id by {
                assert(before[a].data.id < before[b].data.id);
            }
            assert forall|k: int| 0 <= k < self.robots@.len() implies (
            #[trigger] self.robots@[k]).wf() && self.robots@[k].data.id
                < self.next_robot_id by {
                assert(before[k].wf());
            }
            lemma_index_after_step(
                &grid_before,
                &self.grid,
                before,
                self.robots@,
                self.next_robot_id,
                i as int,
            );
            assert(before[i as int].wf());
        }
        request
    }

    /// Hands the server's answer to the robot at place `j` of the list.
    fn answer_listed(&mut self, j: usize, response: Response)
        requires
            old(self).wf(),
            j < old(self).robots@.len(),
            response matches Response::Mined { valuable_id, amount } ==> 0 <= amount <= old(self).robots@[j as int].data.max_val_inventory - old(self).robots@[j as int].data.val_inventory && old(self).robots@[j as int].data.mined_amount
                + amount <= i32::MAX,
        ensures
            final(self).wf(),
            answered(old(self), final(self), j as int, response),
            final(self).robots@.len() == old(self).robots@.len(),
    {
        let ghost before = self.robots@;
        self.robots[j].handle_server_response(response);
        proof {
            assert forall|a: int, b: int| 0 <= a < b < self.robots@.len() implies (
            #[trigger] self.robots@[a]).data.id < (#[trigger] self.robots@[b]).data.id by {
                assert(before[a].data.id < before[b].data.id);
            }
            assert forall|k: int| 0 <= k < self.robots@.len() implies (
            #[trigger] self.robots@[k]).wf() && self.robots@[k].data.id
                < self.next_robot_id by {
                assert(before[k].wf());
            }
            lemma_index_after_change(self.grid.robot_locs@, before, self.robots@);
        }
    }

    /// Lets the robot with the given id take its tick, does what the robot
    /// asks and hands the answer back to it, and tells those who watch how
    /// the robot stands afterwards. `target_angle` is the planar angle in
    /// whole degrees under which the robot sees the robot that it pursues,
    /// where the caller can tell it.
    pub fn tick_robot(&mut self, robot_id: &i64, target_angle: Option<i32>)
        requires
            old(self).wf(),
        ensures
            final(self).wf(),
            turn_taken(old(self), final(self), *robot_id, target_angle),
            final(self).config == old(self).config,
            final(self).shutdown == old(self).shutdown,
            final(self).grid.cells@ == old(self).grid.cells@,
            final(self).next_robot_id == old(self).next_robot_id,
            final(self).robots@.len() <= old(self).robots@.len(),
            outbox_grown(old(self).outbox@, final(self).outbox@),
    {
        // the robot may send back a request for this server to perform
        let i = match self.robot_index(*robot_id) {
            Some(i) => i,
            None => {
                return ;
            },
        };
        let server_request = self.tick_listed(i, target_angle);
        let ghost stepped = *self;
        let ghost mut served = *self;
        let ghost mut learned = *self;
        let ghost mut response: Option<Response> = None;

        if let Some(request) = server_request {
            let ghost asking = self.robots@;
            let ghost piles = self.valuables@;
            let server_response = self.handle_request_for_robot(robot_id, request, None);
            proof {
                served = *self;
                learned = *self;
                response = server_response;
            }
            if let Some(answer) = server_response {
                if let Some(j) = self.robot_index(*robot_id) {
                    proof {
                        if let Request::Mine { valuable_id, amount } = request {
                            assert(self.robots@ == asking);
                            lemma_robot_place(asking, self.next_robot_id, i as int);
                            lemma_robot_place(asking, self.next_robot_id, j as int);
                            assert(j == i);
                            if let Some(v) = valuable_place(piles, valuable_id) {
                                assert(piles[v].wf());
                            }
                        }
                    }
                    self.answer_listed(j, answer);
                    proof {
                        learned = *self;
                    }
                }
            }
        }
        let ghost told = self.outbox@;
        if let Some(j) = self.robot_index(*robot_id) {
            let told = self.robots[j].snapshot();
            self.outbox.push(BroadcastMessage::RobotMoved { robot: told });
        }
        proof {
            assert(self.outbox@.len() > told.len() ==> self.outbox@.drop_last() =~= told);
            assert(robot_stepped(old(self), &stepped, i as int, target_angle, server_request));
            assert(request_served(&stepped, &served, *robot_id, server_request, response));
            assert(answer_taken(&served, &learned, *robot_id, response));
            assert(reported(&learned, self, *robot_id));
        }
    }

    /// Send initial data for a specified new client: all cells in the order
    /// in which they were made, all robots and all valuables as they are.
    pub fn send_initializer_data(&mut self, client_id: usize)
        requires
            old(self).wf(),
        ensures
            old(self).same_world(final(self)),
            final(self).outbox@.len() == old(self).outbox@.len() + 1,
            final(self).outbox@.drop_last() == old(self).outbox@,
            final(self).outbox@.last() matches BroadcastMessage::InitializerData {
                id,
                cells,
                robots,
                valuables,
            } && {
                &&& id == client_id
                &&& cells@ == present_cells(old(self).grid.cells@, old(self).grid.cell_list())
                &&& robots@.len() == old(self).robots@.len()
                &&& forall|k: int|
                    0 <= k < robots@.len() ==> (#[trigger] old(self).robots@[k]).same_as(
                        &robots@[k],
                    )
                &&& valuables@.len() == old(self).valuables@.len()
                &&& forall|k: int|
                    0 <= k < valuables@.len() ==> (#[trigger] old(self).valuables@[k]).same_as(
                        &valuables@[k],
                    )
            },
    {
        let mut cells: Vec<GridCell> = Vec::new();
        let mut i: usize = 0;
        while i < self.grid.cell_coords.len()
            invariant
                i <= self.grid.cell_coords.len(),
                cells@ == present_cells(self.grid.cells@, self.grid.cell_coords@.take(i as int)),
            decreases self.grid.cell_coords.len() - i,
        {
            let c = self.grid.cell_coords[i];
            proof {
                crate::grid::grid::lemma_present_cells_push(
                    self.grid.cells@,
                    self.grid.cell_coords@.take(i as int),
                    c,
                );
                self.grid.cell_coords@.lemma_take_succ_push(i as int);
            }
            if let Some(cell) = self.grid.cells.get(&c) {
                cells.push(*cell);
            }
            i = i + 1;
        }
        proof {
            self.grid.cell_coords@.lemma_take_len();
        }
        let mut robots: Vec<Robot> = Vec::new();
        let mut r: usize = 0;
        while r < self.robots.len()
            invariant
                r <= self.robots.len(),
                robots@.len() == r,
                forall|k: int| 0 <= k < r ==> (#[trigger] self.robots@[k]).same_as(&robots@[k]),
            decreases self.robots.len() - r,
        {
            robots.push(self.robots[r].snapshot());
            r = r + 1;
        }
        let mut valuables: Vec<Valuable> = Vec::new();
        let mut v: usize = 0;
        while v < self.valuables.len()
            invariant
                v <= self.valuables.len(),
                valuables@.len() == v,
                forall|k: int|
                    0 <= k < v ==> (#[trigger] self.valuables@[k]).same_as(&valuables@[k]),
            decreases self.valuables.len() - v,
        {
            valuables.push(self.valuables[v].snapshot());
            v = v + 1;
        }

        self.outbox.push(
            BroadcastMessage::InitializerData { id: client_id, cells, robots, valuables },
        );
        proof {
            assert(self.outbox@.drop_last() =~= old(self).outbox@);
        }
    }

    /// Begins a tick: robots and valuables are put into the world until
    /// there are as many as the engine is set up for, or no cell is free.
    /// Returns the ids of the robots that are to take their tick, in the
    /// order in which they are to take it: by rising id.
    pub fn start_tick(&mut self) -> (ids: Vec<i64>)
        requires
            old(self).wf(),
        ensures
            final(self).wf(),
            final(self).config == old(self).config,
            final(self).shutdown == old(self).shutdown,
            final(self).grid.cells@ == old(self).grid.cells@,
            ids@.len() == final(self).robots@.len(),
            forall|k: int| 0 <= k < ids@.len() ==> ids@[k] == (#[trigger] final(self).robots@[k]).data.id,
            old(self).robots@.is_prefix_of(final(self).robots@),
            old(self).valuables@.is_prefix_of(final(self).valuables@),
            outbox_grown(old(self).outbox@, final(self).outbox@),
            final(self).robots@.len() == old(self).robots@.len() || final(self).robots@.len()
                <= final(self).config.max_bots,
            final(self).valuables@.len() == old(self).valuables@.len()
                || final(self).valuables@.len() <= final(self).config.max_valuables,
            final(self).next_robot_id == old(self).next_robot_id + final(self).robots@.len() - old(self).robots@.len(),
            final(self).next_valuable_id == old(self).next_valuable_id + final(self).valuables@.len() - old(self).valuables@.len(),
            forall|k: int|
                old(self).robots@.len() <= k < final(self).robots@.len() ==> is_spawned(
                    &#[trigger] final(self).robots@[k],
                    (old(self).next_robot_id + k - old(self).robots@.len()) as i64,
                ),
            forall|k: int|
                old(self).valuables@.len() <= k < final(self).valuables@.len() ==> is_spawned_pile(
                    &#[trigger] final(self).valuables@[k],
                    (old(self).next_valuable_id + k - old(self).valuables@.len()) as i64,
                ),
            final(self).robots@.len() >= final(self).config.max_bots || final(self).next_robot_id
                == i64::MAX || forall|c: Coords| !final(self).grid.vacant_open(c),
            final(self).valuables@.len() >= final(self).config.max_valuables || final(self).next_valuable_id == i64::MAX || forall|c: Coords| !final(self).grid.vacant_open(c),
    {
        while self.robots.len() < self.config.max_bots
            invariant
                self.wf(),
                self.config == old(self).config,
                self.shutdown == old(self).shutdown,
                self.grid.cells@ == old(self).grid.cells@,
                self.valuables == old(self).valuables,
                old(self).robots@.is_prefix_of(self.robots@),
                outbox_grown(old(self).outbox@, self.outbox@),
                self.robots@.len() == old(self).robots@.len() || self.robots@.len()
                    <= self.config.max_bots,
                self.next_robot_id == old(self).next_robot_id + self.robots@.len() - old(self).robots@.len(),
                self.next_valuable_id == old(self).next_valuable_id,
                forall|k: int|
                    old(self).robots@.len() <= k < self.robots@.len() ==> is_spawned(
                        &#[trigger] self.robots@[k],
                        (old(self).next_robot_id + k - old(self).robots@.len()) as i64,
                    ),
            ensures
                self.wf(),
                self.config == old(self).config,
                self.shutdown == old(self).shutdown,
                self.grid.cells@ == old(self).grid.cells@,
                self.valuables == old(self).valuables,
                old(self).robots@.is_prefix_of(self.robots@),
                outbox_grown(old(self).outbox@, self.outbox@),
                self.robots@.len() == old(self).robots@.len() || self.robots@.len()
                    <= self.config.max_bots,
                self.next_robot_id == old(self).next_robot_id + self.robots@.len() - old(self).robots@.len(),
                self.next_valuable_id == old(self).next_valuable_id,
                forall|k: int|
                    old(self).robots@.len() <= k < self.robots@.len() ==> is_spawned(
                        &#[trigger] self.robots@[k],
                        (old(self).next_robot_id + k - old(self).robots@.len()) as i64,
                    ),
                self.robots@.len() >= self.config.max_bots || self.next_robot_id == i64::MAX
                    || forall|c: Coords| !self.grid.vacant_open(c),
            decreases self.config.max_bots - self.robots.len(),
        {
            let ghost before = self.grid;
            let ghost robots = self.robots@;
            let ghost told = self.outbox@;
            let spawned = self.spawn_robot();
            proof {
                if spawned {
                    assert(self.robots@.drop_last() == robots);
                    assert(self.outbox@.drop_last() == told);
                    assert forall|k: int| 0 <= k < old(self).robots@.len() implies self.robots@[k]
                        == old(self).robots@[k] by {
                        assert(self.robots@.drop_last()[k] == robots[k]);
                    }
                    assert forall|k: int|
                        old(self).robots@.len() <= k < self.robots@.len() implies is_spawned(
                        &#[trigger] self.robots@[k],
                        (old(self).next_robot_id + k - old(self).robots@.len()) as i64,
                    ) by {
                        if k < robots.len() {
                            assert(self.robots@.drop_last()[k] == robots[k]);
                        }
                    }
                    assert forall|k: int| 0 <= k < old(self).outbox@.len() implies self.outbox@[k]
                        == old(self).outbox@[k] by {
                        assert(self.outbox@.drop_last()[k] == told[k]);
                    }
                }
                assert(old(self).robots@ =~= self.robots@.subrange(
                    0,
                    old(self).robots@.len() as int,
                ));
            }
            if !spawned {
                proof {
                    if self.next_robot_id < i64::MAX {
                        assert forall|c: Coords| !self.grid.vacant_open(c) by {
                            if self.grid.vacant_open(c) {
                                assert(before.vacant_open(c));
                            }
                        }
                    }
                }
                break ;
            }
        }
        let ghost robots_spawned = self.robots@;
        let ghost next_id = self.next_robot_id;

        while self.valuables.len() < self.config.max_valuables
            invariant
                self.wf(),
                self.config == old(self).config,
                self.shutdown == old(self).shutdown,
                self.grid.cells@ == old(self).grid.cells@,
                self.robots@ == robots_spawned,
                self.next_robot_id == next_id,
                old(self).valuables@.is_prefix_of(self.valuables@),
                outbox_grown(old(self).outbox@, self.outbox@),
                self.valuables@.len() == old(self).valuables@.len() || self.valuables@.len()
                    <= self.config.max_valuables,
                self.next_valuable_id == old(self).next_valuable_id + self.valuables@.len() - old(self).valuables@.len(),
                forall|k: int|
                    old(self).valuables@.len() <= k < self.valuables@.len() ==> is_spawned_pile(
                        &#[trigger] self.valuables@[k],
                        (old(self).next_valuable_id + k - old(self).valuables@.len()) as i64,
                    ),
                self.robots@.len() >= self.config.max_bots || self.next_robot_id == i64::MAX
                    || forall|c: Coords| !self.grid.vacant_open(c),
            ensures
                self.wf(),
                self.config == old(self).config,
                self.shutdown == old(self).shutdown,
                self.grid.cells@ == old(self).grid.cells@,
                self.robots@ == robots_spawned,
                self.next_robot_id == next_id,
                old(self).valuables@.is_prefix_of(self.valuables@),
                outbox_grown(old(self).outbox@, self.outbox@),
                self.valuables@.len() == old(self).valuables@.len() || self.valuables@.len()
                    <= self.config.max_valuables,
                self.next_valuable_id == old(self).next_valuable_id + self.valuables@.len() - old(self).valuables@.len(),
                forall|k: int|
                    old(self).valuables@.len() <= k < self.valuables@.len() ==> is_spawned_pile(
                        &#[trigger] self.valuables@[k],
                        (old(self).next_valuable_id + k - old(self).valuables@.len()) as i64,
                    ),
                self.robots@.len() >= self.config.max_bots || self.next_robot_id == i64::MAX
                    || forall|c: Coords| !self.grid.vacant_open(c),
                self.valuables@.len() >= self.config.max_valuables || self.next_valuable_id
                    == i64::MAX || forall|c: Coords| !self.grid.vacant_open(c),
            decreases self.config.max_valuables - self.valuables.len(),
        {
            let ghost before = self.grid;
            let ghost piles = self.valuables@;
            let ghost told = self.outbox@;
            let spawned = self.spawn_random_valuable();
            proof {
                if spawned {
                    assert(self.valuables@.drop_last() == piles);
                    assert(self.outbox@.drop_last() == told);
                    assert forall|k: int|
                        0 <= k < old(self).valuables@.len() implies self.valuables@[k] == old(self).valuables@[k] by {
                        assert(self.valuables@.drop_last()[k] == piles[k]);
                    }
                    assert forall|k: int|
                        old(self).valuables@.len() <= k
                            < self.valuables@.len() implies is_spawned_pile(
                        &#[trigger] self.valuables@[k],
                        (old(self).next_valuable_id + k - old(self).valuables@.len()) as i64,
                    ) by {
                        if k < piles.len() {
                            assert(self.valuables@.drop_last()[k] == piles[k]);
                        }
                    }
                    assert forall|k: int| 0 <= k < old(self).outbox@.len() implies self.outbox@[k]
                        == old(self).outbox@[k] by {
                        assert(self.outbox@.drop_last()[k] == told[k]);
                    }
                }
                assert(old(self).valuables@ =~= self.valuables@.subrange(
                    0,
                    old(self).valuables@.len() as int,
                ));
            }
            if !spawned {
                proof {
                    if forall|c: Coords| !before.vacant_open(c) {
                        assert forall|c: Coords| !self.grid.vacant_open(c) by {
                            if self.grid.vacant_open(c) {
                                assert(before.vacant_open(c));
                            }
                        }
                    }
                    if self.next_valuable_id < i64::MAX {
                        assert forall|c: Coords| !self.grid.vacant_open(c) by {
                            if self.grid.vacant_open(c) {
                                assert(before.vacant_open(c));
                            }
                        }
                    }
                }
                break ;
            }
            proof {
                if forall|c: Coords| !before.vacant_open(c) {
                    assert forall|c: Coords| !self.grid.vacant_open(c) by {
                        if self.grid.vacant_open(c) {
                            assert(before.vacant_open(c));
                        }
                    }
                }
            }
        }

        // the robots that are there now take their tick; those that come
        // during the tick wait for the next
        let mut ids: Vec<i64> = Vec::new();
        let mut i: usize = 0;
        while i < self.robots.len()
            invariant
                i <= self.robots.len(),
                ids@.len() == i,
                forall|k: int| 0 <= k < i ==> ids@[k] == (#[trigger] self.robots@[k]).data.id,
            decreases self.robots.len() - i,
        {
            ids.push(self.robots[i].data.id);
            i = i + 1;
        }
        ids
    }

    /// Ends a tick: the valuables that are exhausted leave the world.
    pub fn finish_tick(&mut self)
        requires
            old(self).wf(),
        ensures
            final(self).wf(),
            swept(old(self), final(self)),
    {
        self.destroy_depleted_valuables();
    }

    /// Hands over what is to be told to those who watch, oldest first, and
    /// keeps nothing of it.
    pub fn take_messages(&mut self) -> (messages: Vec<BroadcastMessage>)
        ensures
            messages == old(self).outbox,
            final(self).outbox@.len() == 0,
            old(self).same_world(final(self)),
    {
        let mut messages: Vec<BroadcastMessage> = Vec::new();
        core::mem::swap(&mut messages, &mut self.outbox);
        messages
    }

    /// Where a robot stands and where the robot stands that it pursues, for
    /// a robot that pursues a robot of the world.
    pub fn pursuit_of(&self, robot_id: i64) -> (places: Option<(Coords, Coords)>)
        requires
            self.wf(),
        ensures
            places == (match robot_place(self.robots@, robot_id) {
                None => None,
                Some(i) => if self.robots@[i].data.pursuit_id == -1 {
                    None
                } else {
                    match self.grid.robot_position(self.robots@[i].data.pursuit_id) {
                        Some(to) => Some((self.robots@[i].coords(), to)),
                        None => None,
                    }
                },
            }),
    {
        let i = match self.robot_index(robot_id) {
            Some(i) => i,
            None => {
                return None;
            },
        };
        if !self.robots[i].is_pursuing() {
            return None;
        }
        match self.grid.get_coords_by_robot_id(&self.robots[i].data.pursuit_id) {
            Some(c) => Some((self.robots[i].get_coords(), *c)),
            None => None,
        }
    }
}

/// The piles of a list that hold something are in the order of the list.
proof fn lemma_filter_keeps_order(piles: Seq<Valuable>, next: i64)
    requires
        valuables_wf(piles, next),
    ensures
        valuables_wf(piles.filter(holds_something()), next),
    decreases piles.len(),
{
    let kept = piles.filter(holds_something());
    if piles.len() > 0 {
        let before = piles.drop_last();
        assert(valuables_wf(before, next)) by {
            assert forall|i: int| 0 <= i < before.len() implies (#[trigger] before[i]).wf()
                && before[i].id < next by {
                assert(before[i] == piles[i]);
            }
            assert forall|i: int, j: int| 0 <= i < j < before.len() implies (
            #[trigger] before[i]).id < (#[trigger] before[j]).id by {
                assert(before[i] == piles[i]);
                assert(before[j] == piles[j]);
            }
        }
        lemma_filter_keeps_order(before, next);
        assert(piles =~= before.push(piles.last()));
        before.lemma_filter_push(piles.last(), holds_something());
        let kept_before = before.filter(holds_something());
        assert forall|i: int| 0 <= i < kept_before.len() implies (#[trigger] kept_before[i]).id
            < piles.last().id by {
            assert(kept_before.contains(kept_before[i]));
            before.lemma_filter_contains_rev(holds_something(), kept_before[i]);
            let k = choose|k: int| 0 <= k < before.len() && before[k] == kept_before[i];
            assert(piles[k].id < piles[piles.len() - 1].id);
        }
    } else {
        assert(kept =~= Seq::<Valuable>::empty()) by {
            piles.lemma_filter_len(holds_something());
        }
    }
}

} // verus!
