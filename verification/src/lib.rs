pub mod agent;
pub mod cell;
pub mod direction;
pub mod driver;
pub mod error;
pub mod grid;
pub mod laws;
pub mod layout;
pub mod position;

pub use agent::Bender;
pub use cell::Cell;
pub use direction::Direction;
pub use driver::{run, solve, Outcome, STEP_LIMIT};
pub use error::MazeError;
pub use grid::{Grid, Surroundings};
pub use position::Position;
