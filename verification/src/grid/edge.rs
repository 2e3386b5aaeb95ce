//! The two kinds of edge between neighbouring cells.

use vstd::prelude::*;
use vstd::std_specs::convert::FromSpecImpl;

verus! {

/// What separates a cell from its neighbour on one side.
#[derive(Copy, Clone, Debug, PartialEq, Eq, Structural)]
pub enum EdgeType {
    Open,
    Wall,
}

impl EdgeType {
    /// The edge that a stored number stands for: 0 is open, any other number
    /// a wall.
    pub open spec fn of_number(item: int) -> EdgeType {
        if item == 0 {
            EdgeType::Open
        } else {
            EdgeType::Wall
        }
    }

    /// The number under which an edge is stored.
    pub open spec fn number(self) -> int {
        match self {
            EdgeType::Open => 0,
            EdgeType::Wall => 1,
        }
    }
}

impl From<i32> for EdgeType {
    fn from(item: i32) -> (e: EdgeType) {
        if item == 0 {
            EdgeType::Open
        } else {
            EdgeType::Wall
        }
    }
}

impl FromSpecImpl<i32> for EdgeType {
    open spec fn obeys_from_spec() -> bool {
        true
    }

    open spec fn from_spec(item: i32) -> EdgeType {
        EdgeType::of_number(item as int)
    }
}

impl From<i16> for EdgeType {
    fn from(item: i16) -> (e: EdgeType) {
        if item == 0 {
            EdgeType::Open
        } else {
            EdgeType::Wall
        }
    }
}

impl FromSpecImpl<i16> for EdgeType {
    open spec fn obeys_from_spec() -> bool {
        true
    }

    open spec fn from_spec(item: i16) -> EdgeType {
        EdgeType::of_number(item as int)
    }
}

impl From<EdgeType> for i32 {
    fn from(item: EdgeType) -> (n: i32) {
        match item {
            EdgeType::Open => 0,
            EdgeType::Wall => 1,
        }
    }
}

impl FromSpecImpl<EdgeType> for i32 {
    open spec fn obeys_from_spec() -> bool {
        true
    }

    open spec fn from_spec(item: EdgeType) -> i32 {
        item.number() as i32
    }
}

impl From<EdgeType> for i16 {
    fn from(item: EdgeType) -> (n: i16) {
        match item {
            EdgeType::Open => 0,
            EdgeType::Wall => 1,
        }
    }
}

impl FromSpecImpl<EdgeType> for i16 {
    open spec fn obeys_from_spec() -> bool {
        true
    }

    open spec fn from_spec(item: EdgeType) -> i16 {
        item.number() as i16
    }
}

/// An edge comes back from the number it is stored under.
pub proof fn lemma_edge_number_round_trip(e: EdgeType)
    ensures
        EdgeType::of_number(e.number()) == e,
{
}

} // verus!
