//! Simulation core of a multiplayer space-trading game: the galaxy store with
//! its sectors and station placement, the ship state machine, the market and
//! the fixed-period simulation step over all players.
pub mod crew;
pub mod errors;
pub mod galaxy;
pub mod game;
pub mod geometry;
pub mod market;
pub mod planet;
mod random;
pub mod resources;
pub mod scan;
pub mod ship;
pub mod station;
pub mod syslog;
pub mod player;
