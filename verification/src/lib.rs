//! Rule engine of a Sokoban-style puzzle: a tile grid, a player and the
//! boxes it pushes, move resolution with pushes, an undo history and win
//! detection.
//!
//! `level` reads the text of a level. `rules` states what a move and an
//! undo do, over mathematical values, and `theorems` proves what follows.
//! `gamemodel` is the engine that plays by these rules, and `gameview` a
//! session of play on one level.

pub mod gamemodel;
pub mod gameview;
pub mod geometry;
pub mod level;
pub mod rules;
pub mod theorems;

pub use crate::gamemodel::GameModel;
pub use crate::gameview::Event;
pub use crate::gameview::EventResult;
pub use crate::gameview::GameView;
pub use crate::geometry::u_plus_i;
pub use crate::geometry::Action;
pub use crate::geometry::Vec2;
pub use crate::level::LevelError;
pub use crate::level::Object;
pub use crate::level::ObjectKind;
pub use crate::level::Tile;
