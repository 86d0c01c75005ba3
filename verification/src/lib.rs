//! The decisions and drawing plan of a small terminal robot simulator.
//!
//! The library holds everything of the simulator that works on integers:
//! the world's screen geometry, the sequence of terminal draw commands that
//! renders the map, the robot and the objects, the mapping from key presses
//! to driving intents, and the loop state that picks the command the robot
//! executes.  Kinematics and world-to-screen projection work on floating
//! point and live with the terminal I/O outside this crate.

pub mod config;
pub mod control;
pub mod draw;
pub mod input;

pub use config::WorldConfig;
