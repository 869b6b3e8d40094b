//! The simulation model of a Space Invaders game played on a fixed pixel
//! playfield: the entities, their movement and collision rules, scoring,
//! lives and level progression, and the commands a front end may issue.
//!
//! Positions are whole pixels with the origin at the bottom left of the
//! playfield. Every rule is stated as a contract over the entities' fields
//! and the mathematical views of the composite types.

pub mod app;
pub mod area;
pub mod bunker;
pub mod cannon;
pub mod color;
pub mod grid;
pub mod input;
pub mod invaders;
pub mod laser;
pub mod laws;
pub mod layout;
pub mod mystery_ship;
pub mod points;
pub mod random;

pub use app::App;
pub use area::Area;
pub use bunker::{Bunker, Bunkers};
pub use cannon::Cannon;
pub use color::Color;
pub use grid::InvaderGrid;
pub use invaders::{Invader, InvaderAnimation, InvaderDirection, InvaderRow, InvaderType};
pub use laser::{Direction, Laser, LaserFrom};
pub use mystery_ship::MysteryShip;
