//! The mystery ship: a bonus target that crosses the top of the playfield
//! from right to left and pays more the closer to its middle it is hit.

use vstd::prelude::*;
use crate::area::Area;
use crate::laser::Laser;
use crate::points::{
    LASER_WIDTH, MYSTERY_SHIP_HEIGHT, MYSTERY_SHIP_INITIAL_X, MYSTERY_SHIP_INITIAL_Y,
    MYSTERY_SHIP_MOVE, MYSTERY_SHIP_WIDTH,
};

verus! {

/// The mystery ship: the position of its lower left corner.
#[derive(Copy, Clone, Debug, PartialEq, Eq, Structural)]
pub struct MysteryShip {
    pub left: i32,
    pub bottom: i32,
}

/// The points for a hit whose laser is `offset` pixels right of the ship's
/// left edge: the bands are symmetric about the middle of the ship.
pub open spec fn hit_score(offset: int) -> u32 {
    if 0 <= offset <= 1 || 14 <= offset <= 15 {
        50
    } else if 2 <= offset <= 3 || 12 <= offset <= 13 {
        100
    } else if 4 <= offset <= 5 || 10 <= offset <= 11 {
        150
    } else {
        200
    }
}

impl MysteryShip {
    /// The ship at its starting point, just right of the playfield at the
    /// top.
    pub open spec fn spec_new() -> MysteryShip {
        MysteryShip { left: MYSTERY_SHIP_INITIAL_X, bottom: MYSTERY_SHIP_INITIAL_Y }
    }

    /// The ship just right of the playfield, about to fly in.
    pub open spec fn spec_reset(self) -> MysteryShip {
        MysteryShip { left: MYSTERY_SHIP_INITIAL_X, ..self }
    }

    /// Some part of the ship has yet to leave the playfield on the left.
    pub open spec fn spec_is_visible(&self) -> bool {
        self.left > 0 - MYSTERY_SHIP_WIDTH
    }

    /// The ship parked out of sight left of the playfield.
    pub open spec fn hidden(self) -> MysteryShip {
        MysteryShip { left: (0 - MYSTERY_SHIP_WIDTH - 1) as i32, ..self }
    }

    /// The ship one tick later: it flies on while it is visible.
    pub open spec fn advanced(self) -> MysteryShip {
        if self.is_visible() {
            MysteryShip { left: (self.left - MYSTERY_SHIP_MOVE) as i32, ..self }
        } else {
            self
        }
    }

    /// The rectangle of the ship.
    pub open spec fn spec_area(&self) -> Area {
        Area {
            left: self.left as i64,
            bottom: self.bottom as i64,
            right: (self.left + MYSTERY_SHIP_WIDTH) as i64,
            top: (self.bottom + MYSTERY_SHIP_HEIGHT) as i64,
        }
    }

    /// The points a laser earns: those of the band it strikes if it overlaps
    /// the ship, none otherwise.
    pub open spec fn spec_collides_with(self, laser: &Laser) -> Option<u32> {
        if self.area().overlaps(laser.area()) {
            Some(hit_score(laser.left - self.left))
        } else {
            None
        }
    }

    /// The ship at its starting point.
    pub fn new() -> (ship: MysteryShip)
        ensures
            ship == MysteryShip::spec_new(),
            ship.is_visible(),
    {
        MysteryShip { left: MYSTERY_SHIP_INITIAL_X, bottom: MYSTERY_SHIP_INITIAL_Y }
    }

    /// Puts the ship back just right of the playfield.
    pub fn reset(&mut self)
        ensures
            *final(self) == old(self).spec_reset(),
            final(self).is_visible(),
    {
        self.left = MYSTERY_SHIP_INITIAL_X;
    }

    /// Tells whether some part of the ship has yet to leave the playfield.
    #[verifier::when_used_as_spec(spec_is_visible)]
    pub fn is_visible(&self) -> (r: bool)
        ensures
            r == self.spec_is_visible(),
    {
        self.left > 0 - MYSTERY_SHIP_WIDTH
    }

    /// Parks the ship out of sight, as after a hit.
    pub fn hide_ship(&mut self)
        ensures
            *final(self) == old(self).hidden(),
            !final(self).is_visible(),
    {
        self.left = 0 - MYSTERY_SHIP_WIDTH - 1;
    }

    /// Lets the ship fly on a step, if it is visible.
    pub fn on_tick(&mut self)
        ensures
            *final(self) == old(self).advanced(),
            old(self).is_visible() ==> final(self).left == old(self).left - MYSTERY_SHIP_MOVE,
            !old(self).is_visible() ==> *final(self) == *old(self),
    {
        if self.is_visible() {
            self.left = self.left - MYSTERY_SHIP_MOVE;
        }
    }

    /// Gives the points a laser earns from the ship, if it overlaps it.
    /// The ship itself is left as it is.
    pub fn collides_with(&mut self, laser: &Laser) -> (r: Option<u32>)
        ensures
            *final(self) == *old(self),
            r == old(self).spec_collides_with(laser),
            r is Some ==> 0 <= laser.left - old(self).left <= MYSTERY_SHIP_WIDTH - LASER_WIDTH,
    {
        if self.area().overlaps(laser.area()) {
            let offset: i64 = laser.area().left - self.area().left;
            if offset <= 1 || offset >= 14 {
                Some(50)
            } else if offset <= 3 || offset >= 12 {
                Some(100)
            } else if offset <= 5 || offset >= 10 {
                Some(150)
            } else {
                Some(200)
            }
        } else {
            None
        }
    }

    /// The rectangle of the ship.
    #[verifier::when_used_as_spec(spec_area)]
    pub fn area(&self) -> (area: Area)
        ensures
            area == self.spec_area(),
            area.non_degenerate(),
    {
        Area::new(
            self.left as i64,
            self.bottom as i64,
            self.left as i64 + MYSTERY_SHIP_WIDTH as i64,
            self.bottom as i64 + MYSTERY_SHIP_HEIGHT as i64,
        )
    }

    /// A laser that overlaps the ship strikes one of its sixteen columns, so
    /// every hit falls in a scoring band.
    pub proof fn lemma_hit_offset(ship: MysteryShip, laser: Laser)
        requires
            ship.area().overlaps(laser.area()),
        ensures
            0 <= laser.left - ship.left <= 15,
            ship.spec_collides_with(&laser) is Some,
            50 <= ship.spec_collides_with(&laser).unwrap() <= 200,
    {
    }

    /// A hidden ship is not visible and a reset ship is.
    pub proof fn lemma_hide_reset(ship: MysteryShip)
        ensures
            !ship.hidden().is_visible(),
            ship.spec_reset().is_visible(),
            ship.hidden().spec_reset().is_visible(),
            !ship.spec_reset().hidden().is_visible(),
    {
    }
}

} // verus!
