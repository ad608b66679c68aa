//! Engine for a two-player board game with hidden, simultaneous moves.
//!
//! Each round both players privately derive a candidate board from the same
//! confirmed baseline; the engine merges the candidates cell by cell and
//! settles collisions through point-based combat.

pub mod board;
pub mod entity;
pub mod figure;
pub mod parse;
pub mod player;
pub mod position;
pub mod session;

pub use board::Board;
pub use entity::Entity;
pub use figure::{Figure, FigureType};
pub use player::Player;
pub use position::{Position, PositionError};
pub use session::{Session, SessionResult};
