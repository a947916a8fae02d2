//! The simulation core of a snake game on a square board whose edges wrap
//! around: board geometry, the snake's movement and growth, rewards, and the
//! game's status.
pub mod grid;
pub mod random;
pub mod world;

pub use grid::Direction;
pub use random::CyclicSource;
pub use random::RandomSource;
pub use world::GameStatus;
pub use world::Snake;
pub use world::SnakeCell;
pub use world::World;
