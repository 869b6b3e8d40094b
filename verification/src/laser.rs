//! A single projectile: fired upwards by the cannon or downwards by an
//! invader, it moves a fixed distance per tick and lives while it is fully
//! inside the playfield.

use vstd::prelude::*;
use crate::area::Area;
use crate::color::Color;
use crate::invaders::InvaderType;
use crate::points::{
    ALIEN_WIDTH, CANNON_LASER_INITIAL_X_OFFSET, CANNON_LASER_INITIAL_Y, GAME_HEIGHT, LASER_HEIGHT,
    LASER_MOVE, LASER_WIDTH,
};

verus! {

/// The way a laser flies.
#[derive(Copy, Clone, Debug, PartialEq, Eq, Structural)]
pub enum Direction {
    Up,
    Down,
}

/// Who fired a laser.
#[derive(Copy, Clone, Debug, PartialEq, Eq, Structural)]
pub enum LaserFrom {
    Invader,
    Cannon,
}

/// A laser: the position of its lower left corner, its colour, the way it
/// flies and who fired it.
#[derive(Copy, Clone, Debug, PartialEq, Eq, Structural)]
pub struct Laser {
    pub left: i32,
    pub bottom: i32,
    pub color: Color,
    pub direction: Direction,
    pub from: LaserFrom,
}

impl Laser {
    /// The laser a cannon at `cannon_left` fires from its muzzle.
    pub open spec fn spec_new_cannon(cannon_left: i32) -> Laser {
        Laser {
            left: (cannon_left + CANNON_LASER_INITIAL_X_OFFSET) as i32,
            bottom: CANNON_LASER_INITIAL_Y,
            color: Color::Green,
            direction: Direction::Up,
            from: LaserFrom::Cannon,
        }
    }

    /// The laser an invader at the given position drops from the middle of
    /// its lower edge.
    pub open spec fn spec_new_invader(
        invader_left: i32,
        invader_bottom: i32,
        invader_type: InvaderType,
    ) -> Laser {
        Laser {
            left: (invader_left + ALIEN_WIDTH / 2) as i32,
            bottom: (invader_bottom - LASER_HEIGHT) as i32,
            color: invader_type.color(),
            direction: Direction::Down,
            from: LaserFrom::Invader,
        }
    }

    /// The position one tick later fits the coordinate type.
    pub open spec fn can_advance(self) -> bool {
        match self.direction {
            Direction::Up => self.bottom + LASER_MOVE <= i32::MAX,
            Direction::Down => self.bottom - LASER_MOVE >= i32::MIN,
        }
    }

    /// The laser one tick later.
    pub open spec fn advanced(self) -> Laser {
        Laser {
            bottom: match self.direction {
                Direction::Up => (self.bottom + LASER_MOVE) as i32,
                Direction::Down => (self.bottom - LASER_MOVE) as i32,
            },
            ..self
        }
    }

    /// The laser is fully inside the playfield vertically.
    pub open spec fn spec_is_visible(&self) -> bool {
        0 <= self.bottom && self.bottom + LASER_HEIGHT <= GAME_HEIGHT
    }

    /// The rectangle of the laser: one pixel wide, two high.
    pub open spec fn spec_area(&self) -> Area {
        Area {
            left: self.left as i64,
            bottom: self.bottom as i64,
            right: (self.left + LASER_WIDTH) as i64,
            top: (self.bottom + LASER_HEIGHT) as i64,
        }
    }

    /// The rectangle whose interior holds the bunker pixels a laser burns
    /// away: its own rectangle grown by one pixel on every side, so that the
    /// pixels the laser touches lie strictly inside.
    pub open spec fn spec_bunker_collision_area(&self) -> Area {
        Area {
            left: (self.left - 1) as i64,
            bottom: (self.bottom - 1) as i64,
            right: (self.left + LASER_WIDTH + 1) as i64,
            top: (self.bottom + LASER_HEIGHT + 1) as i64,
        }
    }

    /// The laser a cannon whose left edge is at `cannon_left` fires.
    pub fn new_cannon(cannon_left: i32) -> (laser: Laser)
        requires
            cannon_left + CANNON_LASER_INITIAL_X_OFFSET <= i32::MAX,
        ensures
            laser == Laser::spec_new_cannon(cannon_left),
            laser.left == cannon_left + CANNON_LASER_INITIAL_X_OFFSET,
    {
        Laser {
            left: cannon_left + CANNON_LASER_INITIAL_X_OFFSET,
            bottom: CANNON_LASER_INITIAL_Y,
            color: Color::Green,
            direction: Direction::Up,
            from: LaserFrom::Cannon,
        }
    }

    /// The laser an invader at the given position drops, in the colour of
    /// its kind.
    pub fn new_invader(invader_left: i32, invader_bottom: i32, invader_type: InvaderType) -> (laser:
        Laser)
        requires
            invader_left + ALIEN_WIDTH / 2 <= i32::MAX,
            invader_bottom - LASER_HEIGHT >= i32::MIN,
        ensures
            laser == Laser::spec_new_invader(invader_left, invader_bottom, invader_type),
            laser.left == invader_left + ALIEN_WIDTH / 2,
            laser.bottom == invader_bottom - LASER_HEIGHT,
    {
        Laser {
            left: invader_left + ALIEN_WIDTH / 2,
            bottom: invader_bottom - LASER_HEIGHT,
            color: invader_type.color(),
            direction: Direction::Down,
            from: LaserFrom::Invader,
        }
    }

    /// Moves the laser one step along its direction.
    pub fn on_tick(&mut self)
        requires
            old(self).can_advance(),
        ensures
            *final(self) == old(self).advanced(),
            old(self).direction == Direction::Up ==> final(self).bottom == old(self).bottom
                + LASER_MOVE,
            old(self).direction == Direction::Down ==> final(self).bottom == old(self).bottom
                - LASER_MOVE,
    {
        match self.direction {
            Direction::Up => {
                self.bottom = self.bottom + LASER_MOVE;
            },
            Direction::Down => {
                self.bottom = self.bottom - LASER_MOVE;
            },
        }
    }

    /// Tells whether the laser is fully inside the playfield vertically.
    #[verifier::when_used_as_spec(spec_is_visible)]
    pub fn is_visible(&self) -> (r: bool)
        ensures
            r == self.spec_is_visible(),
    {
        self.bottom >= 0 && self.bottom <= GAME_HEIGHT - LASER_HEIGHT
    }

    /// The rectangle of the laser.
    #[verifier::when_used_as_spec(spec_area)]
    pub fn area(&self) -> (area: Area)
        ensures
            area == self.spec_area(),
            area.non_degenerate(),
    {
        Area::new(
            self.left as i64,
            self.bottom as i64,
            self.left as i64 + LASER_WIDTH as i64,
            self.bottom as i64 + LASER_HEIGHT as i64,
        )
    }

    /// The rectangle whose interior holds the bunker pixels the laser
    /// burns.
    #[verifier::when_used_as_spec(spec_bunker_collision_area)]
    pub fn bunker_collision_area(&self) -> (area: Area)
        ensures
            area == self.spec_bunker_collision_area(),
            area.non_degenerate(),
    {
        Area::new(
            self.left as i64 - 1,
            self.bottom as i64 - 1,
            self.left as i64 + LASER_WIDTH as i64 + 1,
            self.bottom as i64 + LASER_HEIGHT as i64 + 1,
        )
    }

    /// A bunker pixel is burnt exactly when it touches the laser's rectangle
    /// or one of its eight neighbours does.
    pub proof fn lemma_bunker_collision_pixels(laser: Laser, x: i64, y: i64)
        ensures
            laser.bunker_collision_area().contains(x, y) <==> (laser.left <= x <= laser.left
                + LASER_WIDTH && laser.bottom <= y <= laser.bottom + LASER_HEIGHT),
    {
    }
}

} // verus!
