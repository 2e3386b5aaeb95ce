//! A tick-driven simulation of autonomous robots on a hexagonal maze.
//!
//! The crate holds the world model (hex coordinates, cells and their edges,
//! the grid and its indices), the maze generator, path planning over a
//! robot's bounded memory, the robot's behaviour state machine and the
//! engine that arbitrates the robots' requests.

pub mod grid;
pub mod robot;
pub mod server;
pub mod utils;
pub mod valuable;
