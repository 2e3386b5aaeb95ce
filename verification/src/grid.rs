//! Hex coordinates, cells, the grid and its spatial indices.

pub mod coords;
pub mod coord_map;
pub mod edge;
pub mod grid;
pub mod utils;

pub use self::coord_map::CoordMap;
pub use self::coords::{Coords, CoordsAndDir, CoordsKind, Dir};
pub use self::edge::EdgeType;
pub use self::grid::{Grid, GridCell};
