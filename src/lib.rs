//! Layout and collision core of a small game board.
//!
//! All lengths are integers in board units (hundredths of a pixel): the
//! aspect-ratio resolver, the free-offset and grid layouts, the sprite
//! registry and the collision scan are exact over them.

pub mod geometry;
pub mod ratio;
pub mod grid;
pub mod layout;
pub mod sprite;
pub mod events;
pub mod gameboard;
pub mod coords;
pub mod state;

pub use crate::events::CollisionEvent;
pub use crate::gameboard::Gameboard;
pub use crate::sprite::Sprite;
