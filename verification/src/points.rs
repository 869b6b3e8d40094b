//! The fixed geometry of the playfield: sizes, starting positions and the
//! distance each entity covers in one move, all in pixels.

use vstd::prelude::*;

verus! {

/// The width of the playfield.
pub const GAME_WIDTH: i32 = 200;

/// The height of the playfield.
pub const GAME_HEIGHT: i32 = 132;

/// The width of the cannon.
pub const CANNON_WIDTH: i32 = 15;

/// The width of a bunker.
pub const BUNKER_WIDTH: i32 = 20;

/// The width of a crab.
pub const CRAB_WIDTH: i32 = 11;

/// The width of a squid.
pub const SQUID_WIDTH: i32 = 8;

/// The width of an octopus.
pub const OCTOPUS_WIDTH: i32 = 12;

/// Every invader occupies a cell as wide as the widest kind.
pub const ALIEN_WIDTH: i32 = OCTOPUS_WIDTH;

/// The gap between the cells of two neighbouring invaders of a row.
pub const ALIEN_BUFFER_WIDTH: i32 = 4;

/// The width of the mystery ship.
pub const MYSTERY_SHIP_WIDTH: i32 = 16;

/// The width of a laser.
pub const LASER_WIDTH: i32 = 1;

/// The height of a laser.
pub const LASER_HEIGHT: i32 = 2;

/// The height of the cannon.
pub const CANNON_HEIGHT: i32 = 7;

/// The height of a bunker.
pub const BUNKER_HEIGHT: i32 = 12;

/// The height of the mystery ship.
pub const MYSTERY_SHIP_HEIGHT: i32 = 8;

/// The height of an invader.
pub const ALIEN_HEIGHT: i32 = 8;

/// The gap between two rows of invaders.
pub const ALIEN_BUFFER_HEIGHT: i32 = 2;

/// The distance between the bottoms of two rows of invaders.
pub const ROW_HEIGHT: i32 = ALIEN_HEIGHT + ALIEN_BUFFER_HEIGHT;

/// The gap between the mystery ship and a new formation at the first level.
pub const MYSTERY_SHIP_GRID_BUFFER: i32 = 2;

/// The left edge of the cannon at its starting point, and its left stop.
pub const CANNON_INITIAL_X: i32 = 1;

/// The cannon stands on the floor.
pub const CANNON_INITIAL_Y: i32 = 0;

/// The margin between a wall and the nearest bunker.
pub const BUNKER_OFFSET_X: i32 = 20;

/// The bottom of the bunkers.
pub const BUNKER_INITIAL_Y: i32 = 14;

/// The left edge of the mystery ship before it flies in: just right of the
/// playfield.
pub const MYSTERY_SHIP_INITIAL_X: i32 = GAME_WIDTH + 1;

/// The bottom of the mystery ship: it flies along the top.
pub const MYSTERY_SHIP_INITIAL_Y: i32 = GAME_HEIGHT - MYSTERY_SHIP_HEIGHT;

/// The bottom of a laser as it leaves the cannon.
pub const CANNON_LASER_INITIAL_Y: i32 = CANNON_HEIGHT + 1;

/// The muzzle is the single pixel column in the middle of the cannon: half
/// the cannon's width, rounded down, less one.
pub const CANNON_LASER_INITIAL_X_OFFSET: i32 = 6;

/// The left edge of a new formation, and the left stop of the invaders.
pub const GRID_INITIAL_X: i32 = 1;

/// The bottom of a new formation at the first level: five rows below the
/// mystery ship and its gap.
pub const GRID_INITIAL_Y: i32 = MYSTERY_SHIP_INITIAL_Y - 5 * ROW_HEIGHT - MYSTERY_SHIP_GRID_BUFFER;

/// The sideways step of the formation.
pub const INVADER_MOVE_X: i32 = 2;

/// The step down of the formation: half a row.
pub const INVADER_MOVE_Y: i32 = 5;

/// The step of the mystery ship.
pub const MYSTERY_SHIP_MOVE: i32 = 2;

/// The step of the cannon.
pub const CANNON_MOVE: i32 = 2;

/// The step of a laser.
pub const LASER_MOVE: i32 = 2;

/// The horizontal distance between the left edges of two neighbouring
/// invaders of a row.
pub const ALIEN_PITCH: i32 = ALIEN_WIDTH + ALIEN_BUFFER_WIDTH;

/// The values of the constants that are derived from others.
pub proof fn lemma_derived_constants()
    ensures
        ALIEN_WIDTH == 12,
        ROW_HEIGHT == 10,
        MYSTERY_SHIP_INITIAL_X == 201,
        MYSTERY_SHIP_INITIAL_Y == 124,
        CANNON_LASER_INITIAL_Y == 8,
        CANNON_LASER_INITIAL_X_OFFSET == CANNON_WIDTH / 2 - 1,
        GRID_INITIAL_Y == 72,
        INVADER_MOVE_Y == ROW_HEIGHT / 2,
        ALIEN_PITCH == 16,
{
}

} // verus!
