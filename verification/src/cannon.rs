//! The player's cannon: it slides along the floor between the two walls.

use vstd::prelude::*;
use crate::area::Area;
use crate::color::Color;
use crate::laser::Laser;
use crate::points::{
    CANNON_HEIGHT, CANNON_INITIAL_X, CANNON_INITIAL_Y, CANNON_MOVE, CANNON_WIDTH, GAME_WIDTH,
};

verus! {

/// The cannon: the position of its lower left corner and its colour.
#[derive(Copy, Clone, Debug, PartialEq, Eq, Structural)]
pub struct Cannon {
    pub left: i32,
    pub bottom: i32,
    pub color: Color,
}

impl Cannon {
    /// The cannon stands on the floor at one of the positions it can reach
    /// from its starting point: a whole number of moves to the right of it
    /// and not beyond the right wall.
    pub open spec fn wf(self) -> bool {
        &&& self.bottom == CANNON_INITIAL_Y
        &&& CANNON_INITIAL_X <= self.left <= GAME_WIDTH - CANNON_WIDTH
        &&& (self.left - CANNON_INITIAL_X) % (CANNON_MOVE as int) == 0
    }

    /// The cannon at its starting point at the left wall.
    pub open spec fn spec_new_normal() -> Cannon {
        Cannon { left: CANNON_INITIAL_X, bottom: CANNON_INITIAL_Y, color: Color::Green }
    }

    /// The cannon after a request to move left: it moves unless it is at the
    /// left wall.
    pub open spec fn moved_left(self) -> Cannon {
        if self.left > 1 {
            Cannon { left: (self.left - CANNON_MOVE) as i32, ..self }
        } else {
            self
        }
    }

    /// The cannon after a request to move right: it moves unless it is at
    /// the right wall.
    pub open spec fn moved_right(self) -> Cannon {
        if self.left < GAME_WIDTH - CANNON_WIDTH {
            Cannon { left: (self.left + CANNON_MOVE) as i32, ..self }
        } else {
            self
        }
    }

    /// The cannon back at its starting point.
    pub open spec fn spec_reset(self) -> Cannon {
        Cannon { left: CANNON_INITIAL_X, bottom: CANNON_INITIAL_Y, ..self }
    }

    /// The rectangle of the cannon.
    pub open spec fn spec_area(&self) -> Area {
        Area {
            left: self.left as i64,
            bottom: self.bottom as i64,
            right: (self.left + CANNON_WIDTH) as i64,
            top: (self.bottom + CANNON_HEIGHT) as i64,
        }
    }

    /// The laser overlaps the cannon.
    pub open spec fn spec_collides_with_laser(&self, laser: &Laser) -> bool {
        self.area().overlaps(laser.area())
    }

    /// Tells whether the cannon is well formed.
    pub fn is_wf(&self) -> (r: bool)
        ensures
            r == self.wf(),
    {
        self.bottom == CANNON_INITIAL_Y && CANNON_INITIAL_X <= self.left && self.left <= GAME_WIDTH
            - CANNON_WIDTH && (self.left - CANNON_INITIAL_X) % CANNON_MOVE == 0
    }

    /// The cannon the player steers, at its starting point.
    pub fn new_normal() -> (cannon: Cannon)
        ensures
            cannon == Cannon::spec_new_normal(),
            cannon.wf(),
    {
        Cannon { left: CANNON_INITIAL_X, bottom: CANNON_INITIAL_Y, color: Color::Green }
    }

    /// The cannon drawn for the life with the given number, counted from
    /// one: each stands a cannon's width and four pixels right of the
    /// previous.
    pub fn new_life(index: u8) -> (cannon: Cannon)
        requires
            index >= 1,
        ensures
            cannon.left == CANNON_INITIAL_X + (index - 1) * (CANNON_WIDTH + 4),
            cannon.bottom == CANNON_INITIAL_Y,
            cannon.color == Color::Green,
    {
        let spacing: i32 = CANNON_WIDTH + 4;
        assert(spacing == 19);
        let x_offset: i32 = (index as i32 - 1) * spacing;
        Cannon { left: CANNON_INITIAL_X + x_offset, bottom: CANNON_INITIAL_Y, color: Color::Green }
    }

    /// Moves the cannon a step to the left, unless it is at the left wall.
    pub fn move_left(&mut self)
        ensures
            *final(self) == old(self).moved_left(),
            old(self).left > 1 ==> final(self).left == old(self).left - CANNON_MOVE,
            old(self).left <= 1 ==> *final(self) == *old(self),
            old(self).wf() ==> final(self).wf(),
    {
        if self.left > 1 {
            self.left = self.left - CANNON_MOVE;
        }
    }

    /// Moves the cannon a step to the right, unless it is at the right
    /// wall.
    pub fn move_right(&mut self)
        ensures
            *final(self) == old(self).moved_right(),
            old(self).left < GAME_WIDTH - CANNON_WIDTH ==> final(self).left == old(self).left
                + CANNON_MOVE,
            old(self).left >= GAME_WIDTH - CANNON_WIDTH ==> *final(self) == *old(self),
            old(self).wf() ==> final(self).wf(),
    {
        if self.left < GAME_WIDTH - CANNON_WIDTH {
            self.left = self.left + CANNON_MOVE;
        }
    }

    /// Puts the cannon back at its starting point.
    pub fn reset(&mut self)
        ensures
            *final(self) == old(self).spec_reset(),
            old(self).color == Color::Green ==> *final(self) == Cannon::spec_new_normal(),
    {
        self.left = CANNON_INITIAL_X;
        self.bottom = CANNON_INITIAL_Y;
    }

    /// Tells whether the laser overlaps the cannon.
    #[verifier::when_used_as_spec(spec_collides_with_laser)]
    pub fn collides_with_laser(&self, laser: &Laser) -> (r: bool)
        ensures
            r == self.spec_collides_with_laser(laser),
    {
        self.area().overlaps(laser.area())
    }

    /// The rectangle of the cannon.
    #[verifier::when_used_as_spec(spec_area)]
    pub fn area(&self) -> (area: Area)
        ensures
            area == self.spec_area(),
            area.non_degenerate(),
    {
        Area::new(
            self.left as i64,
            self.bottom as i64,
            self.left as i64 + CANNON_WIDTH as i64,
            self.bottom as i64 + CANNON_HEIGHT as i64,
        )
    }

    /// A well-formed cannon is between the walls, and stays well formed
    /// wherever it is asked to go.
    pub proof fn lemma_wf_in_field(cannon: Cannon)
        requires
            cannon.wf(),
        ensures
            0 <= cannon.left <= GAME_WIDTH - CANNON_WIDTH,
            cannon.moved_left().wf(),
            cannon.moved_right().wf(),
            cannon.spec_reset().wf(),
    {
    }
}

} // verus!
