//! The game: the state every entity lives in, the tick that advances it and
//! the commands a player gives.
//!
//! `AppView` is the mathematical value of a game. Every rule is a function
//! from one such value to the next; the methods of `App` compute them.

use vstd::prelude::*;
use rand::rngs::ThreadRng;
use crate::bunker::{Bunkers, BunkersView};
use crate::cannon::Cannon;
use crate::grid::{GridView, InvaderGrid};
use crate::invaders::{fits, InvaderType, INVADERS_PER_ROW};
use crate::laser::Laser;
use crate::mystery_ship::{hit_score, MysteryShip};
use crate::points::{
    ALIEN_WIDTH, CANNON_LASER_INITIAL_X_OFFSET, INVADER_MOVE_X, INVADER_MOVE_Y, LASER_HEIGHT,
    LASER_MOVE,
};
use crate::random::sample_below;

verus! {

/// The number of moves of the formation between two lasers of the invaders.
pub const INVADER_LASER_COUNTER_DEFAULT: u8 = 16;

/// The number of ticks a full formation rests between two moves.
pub const ALIEN_COUNTER_DEFAULT: u8 = 5;

/// The lives a game starts with.
pub const DEFAULT_LIVES: u8 = 3;

/// The last level; the first follows it.
pub const MAX_LEVEL: u8 = 6;

/// The most points a single laser can earn.
pub const MAX_HIT_SCORE: u32 = 200;

/// The most points the given number of lasers can earn together.
pub open spec fn hit_room(lasers: nat) -> int {
    200 * (lasers as int)
}

/// No laser earns more than a hit of the mystery ship in its middle.
pub proof fn lemma_hit_room(lasers: nat)
    ensures
        hit_room(lasers) == lasers * MAX_HIT_SCORE,
        forall|offset: int| hit_score(offset) <= MAX_HIT_SCORE,
        InvaderType::Squid.score() <= MAX_HIT_SCORE,
{
    assert(lasers * MAX_HIT_SCORE == 200 * lasers) by (nonlinear_arith)
        requires
            MAX_HIT_SCORE == 200,
    ;
}

/// Every laser is fully inside the playfield.
pub open spec fn lasers_visible(lasers: Seq<Laser>) -> bool {
    forall|i: int| 0 <= i < lasers.len() ==> (#[trigger] lasers[i]).is_visible()
}

/// Every laser but the one fired last is fully inside the playfield.
pub open spec fn lasers_visible_but_newest(lasers: Seq<Laser>) -> bool {
    forall|i: int| 0 <= i < lasers.len() - 1 ==> (#[trigger] lasers[i]).is_visible()
}

/// Every laser can take its next step.
pub open spec fn lasers_can_advance(lasers: Seq<Laser>) -> bool {
    forall|i: int| 0 <= i < lasers.len() ==> (#[trigger] lasers[i]).can_advance()
}

/// Every laser of `kept` is one of `lasers`.
pub open spec fn lasers_among(kept: Seq<Laser>, lasers: Seq<Laser>) -> bool {
    forall|i: int| 0 <= i < kept.len() ==> lasers.contains(#[trigger] kept[i])
}

/// The lasers one tick later: each has moved on, and those that left the
/// playfield are gone.
pub open spec fn lasers_ticked(lasers: Seq<Laser>) -> Seq<Laser>
    decreases lasers.len(),
{
    if lasers.len() == 0 {
        Seq::empty()
    } else {
        let before = lasers_ticked(lasers.drop_last());
        let moved = lasers.last().advanced();
        if moved.is_visible() {
            before.push(moved)
        } else {
            before
        }
    }
}

/// A game of Space Invaders.
#[derive(Debug)]
pub struct App {
    pub started: bool,
    pub game_over: bool,
    pub score: u32,
    pub hiscore: u32,
    pub level: u8,
    pub show_help: bool,
    pub paused: bool,
    pub should_quit: bool,
    pub cannon: Cannon,
    pub bunkers: Bunkers,
    pub mystery_ship: MysteryShip,
    pub mystery_ship_interval: u16,
    pub mystery_ship_counter: u16,
    pub grid: InvaderGrid,
    pub cannon_lasers: Vec<Laser>,
    pub invader_lasers: Vec<Laser>,
    pub lives: u8,
    pub alien_counter: u8,
    pub alien_counter_max: u8,
    pub invader_laser_counter: u8,
    pub count_threshold: usize,
    pub max_cannon_lasers: usize,
    pub max_invader_lasers: usize,
    pub rng: ThreadRng,
}

/// The mathematical value of a game: everything but the state of the
/// random number generator.
pub struct AppView {
    pub started: bool,
    pub game_over: bool,
    pub score: u32,
    pub hiscore: u32,
    pub level: u8,
    pub show_help: bool,
    pub paused: bool,
    pub should_quit: bool,
    pub cannon: Cannon,
    pub bunkers: BunkersView,
    pub mystery_ship: MysteryShip,
    pub mystery_ship_interval: u16,
    pub mystery_ship_counter: u16,
    pub grid: GridView,
    pub cannon_lasers: Seq<Laser>,
    pub invader_lasers: Seq<Laser>,
    pub lives: u8,
    pub alien_counter: u8,
    pub alien_counter_max: u8,
    pub invader_laser_counter: u8,
    pub count_threshold: usize,
    pub max_cannon_lasers: usize,
    pub max_invader_lasers: usize,
}

impl View for App {
    type V = AppView;

    open spec fn view(&self) -> AppView {
        AppView {
            started: self.started,
            game_over: self.game_over,
            score: self.score,
            hiscore: self.hiscore,
            level: self.level,
            show_help: self.show_help,
            paused: self.paused,
            should_quit: self.should_quit,
            cannon: self.cannon,
            bunkers: self.bunkers@,
            mystery_ship: self.mystery_ship,
            mystery_ship_interval: self.mystery_ship_interval,
            mystery_ship_counter: self.mystery_ship_counter,
            grid: self.grid@,
            cannon_lasers: self.cannon_lasers@,
            invader_lasers: self.invader_lasers@,
            lives: self.lives,
            alien_counter: self.alien_counter,
            alien_counter_max: self.alien_counter_max,
            invader_laser_counter: self.invader_laser_counter,
            count_threshold: self.count_threshold,
            max_cannon_lasers: self.max_cannon_lasers,
            max_invader_lasers: self.max_invader_lasers,
        }
    }
}

impl AppView {
    /// The game is running: started, not over, not paused and not showing
    /// the help.
    pub open spec fn playing(self) -> bool {
        self.started && !self.game_over && !self.paused && !self.show_help
    }

    /// What holds of a game at every moment, also in the middle of a tick:
    /// the cannon is on its track, the formation is well formed and between
    /// the walls, no more lasers fly than are allowed, and the counters are
    /// within their ranges.
    pub open spec fn wf_entities(self) -> bool {
        &&& self.cannon.wf()
        &&& self.grid.wf()
        &&& self.grid.in_field()
        &&& self.cannon_lasers.len() <= self.max_cannon_lasers
        &&& self.invader_lasers.len() <= self.max_invader_lasers
        &&& self.lives <= DEFAULT_LIVES
        &&& self.level <= MAX_LEVEL
        &&& self.alien_counter <= ALIEN_COUNTER_DEFAULT
        &&& self.alien_counter_max <= ALIEN_COUNTER_DEFAULT
        &&& self.invader_laser_counter <= INVADER_LASER_COUNTER_DEFAULT
    }

    /// What holds of a game between ticks and commands: besides the above,
    /// every laser is inside the playfield. The one exception is the laser
    /// the invaders fired last, which may have been fired from below the
    /// floor on the tick that ended the game.
    pub open spec fn wf(self) -> bool {
        &&& self.wf_entities()
        &&& lasers_visible(self.cannon_lasers)
        &&& lasers_visible_but_newest(self.invader_lasers)
        &&& !self.game_over ==> lasers_visible(self.invader_lasers)
    }

    /// The next tick stays within the machine's integers: the score has
    /// room for a hit by every cannon laser, and the formation's origin for
    /// a move and a laser fired after it.
    pub open spec fn can_tick(self) -> bool {
        &&& self.score + hit_room(self.cannon_lasers.len()) <= u32::MAX
        &&& self.grid.bottom - INVADER_MOVE_Y - LASER_HEIGHT - LASER_MOVE >= i32::MIN
        &&& i32::MIN <= self.grid.left - INVADER_MOVE_X
        &&& self.grid.left + INVADER_MOVE_X <= i32::MAX
    }

    /// A new game, waiting to be started, at a level no higher than the
    /// highest.
    pub open spec fn spec_new(
        mystery_ship_interval: u16,
        max_cannon_lasers: u8,
        max_invader_lasers: u8,
        level: u8,
    ) -> AppView {
        let level = if level > MAX_LEVEL {
            MAX_LEVEL
        } else {
            level
        };
        AppView {
            started: false,
            game_over: false,
            score: 0,
            hiscore: 0,
            level,
            show_help: false,
            paused: false,
            should_quit: false,
            cannon: Cannon::spec_new_normal(),
            bunkers: BunkersView::spec_new(),
            mystery_ship: MysteryShip::spec_new(),
            mystery_ship_interval,
            mystery_ship_counter: mystery_ship_interval,
            grid: GridView::spec_new(level),
            cannon_lasers: Seq::empty(),
            invader_lasers: Seq::empty(),
            lives: DEFAULT_LIVES,
            alien_counter: ALIEN_COUNTER_DEFAULT,
            alien_counter_max: ALIEN_COUNTER_DEFAULT,
            invader_laser_counter: INVADER_LASER_COUNTER_DEFAULT,
            count_threshold: GridView::spec_new(level).count() as usize,
            max_cannon_lasers: max_cannon_lasers as usize,
            max_invader_lasers: max_invader_lasers as usize,
        }
    }

    /// The game with a fresh formation for its level, and the pace of the
    /// formation back at its slowest.
    pub open spec fn reset_grid(self) -> AppView {
        AppView {
            grid: GridView::spec_new(self.level),
            count_threshold: GridView::spec_new(self.level).count() as usize,
            alien_counter_max: ALIEN_COUNTER_DEFAULT,
            ..self
        }
    }

    /// The game started anew after it was over: the high score and the
    /// settings stay, everything else is as in a new game at the first
    /// level, but for the mystery ship, which waits out of sight.
    pub open spec fn reset_game(self) -> AppView {
        (AppView {
            game_over: false,
            cannon_lasers: Seq::empty(),
            invader_lasers: Seq::empty(),
            level: 0,
            score: 0,
            lives: DEFAULT_LIVES,
            bunkers: BunkersView::spec_new(),
            mystery_ship: self.mystery_ship.hidden(),
            mystery_ship_counter: self.mystery_ship_interval,
            cannon: self.cannon.spec_reset(),
            ..self
        }).reset_grid()
    }

    /// The first step of a tick: the mystery ship waits for its counter to
    /// run out, then flies while it is visible, and once it has left the
    /// playfield it is put back at the start and the counter is set again.
    pub open spec fn mystery_ship_ticked(self) -> AppView {
        if self.mystery_ship_counter > 0 {
            AppView { mystery_ship_counter: (self.mystery_ship_counter - 1) as u16, ..self }
        } else if self.mystery_ship.is_visible() {
            AppView { mystery_ship: self.mystery_ship.advanced(), ..self }
        } else {
            AppView {
                mystery_ship: self.mystery_ship.hidden().spec_reset(),
                mystery_ship_counter: self.mystery_ship_interval,
                ..self
            }
        }
    }

    /// On this tick the formation moves and a column is chosen to fire.
    pub open spec fn fires(self) -> bool {
        &&& self.playing()
        &&& self.alien_counter == 0
        &&& self.invader_laser_counter <= 1
        &&& self.invader_lasers.len() < self.max_invader_lasers
        &&& !self.grid.is_empty()
    }

    /// The second step of a tick: the formation rests until its counter
    /// runs out; then it moves, and every sixteenth move, if the invaders
    /// may have another laser, the given column fires.
    pub open spec fn grid_moved(self, column: int) -> AppView {
        if self.alien_counter == 0 {
            let grid = self.grid.moved();
            let counter: u8 = if self.invader_laser_counter > 0 {
                (self.invader_laser_counter - 1) as u8
            } else {
                0
            };
            let moved = AppView {
                grid,
                alien_counter: self.alien_counter_max,
                invader_laser_counter: counter,
                ..self
            };
            if counter == 0 && self.invader_lasers.len() < self.max_invader_lasers {
                match grid.laser_at(column) {
                    Some(laser) => AppView {
                        invader_lasers: self.invader_lasers.push(laser),
                        invader_laser_counter: INVADER_LASER_COUNTER_DEFAULT,
                        ..moved
                    },
                    None => moved,
                }
            } else {
                moved
            }
        } else {
            AppView { alien_counter: (self.alien_counter - 1) as u8, ..self }
        }
    }

    /// The game after one cannon laser met its targets. The first it hits
    /// ends it: an invader, which is shot and scores; else the mystery
    /// ship, which scores and hides; else a bunker, which it burns. A
    /// laser that hits nothing flies on.
    pub open spec fn shoot(self, laser: Laser) -> AppView {
        match self.grid.shot_score(laser) {
            Some(points) => AppView {
                grid: self.grid.shot(laser),
                score: (self.score + points) as u32,
                ..self
            },
            None => match self.mystery_ship.spec_collides_with(&laser) {
                Some(points) => AppView {
                    score: (self.score + points) as u32,
                    mystery_ship: self.mystery_ship.hidden(),
                    ..self
                },
                None => AppView {
                    bunkers: self.bunkers.shot(laser),
                    cannon_lasers: if self.bunkers.struck_by_laser(laser) {
                        self.cannon_lasers
                    } else {
                        self.cannon_lasers.push(laser)
                    },
                    ..self
                },
            },
        }
    }

    /// The game after the given cannon lasers, in turn, met their targets:
    /// the lasers that hit nothing are the cannon lasers left.
    pub open spec fn cannon_pass(self, lasers: Seq<Laser>) -> AppView
        decreases lasers.len(),
    {
        if lasers.len() == 0 {
            AppView { cannon_lasers: Seq::empty(), ..self }
        } else {
            self.cannon_pass(lasers.drop_last()).shoot(lasers.last())
        }
    }

    /// The game after one laser of the invaders met its targets. A laser
    /// that hits the cannon costs a life and sends the cannon back to its
    /// start; if no life is left the game is over, and nothing else
    /// happens in this pass. A laser burns the bunker it strikes. A laser
    /// that hits nothing flies on.
    pub open spec fn bomb(self, laser: Laser) -> AppView {
        if self.game_over {
            self
        } else if self.cannon.collides_with_laser(&laser) && self.lives == 0 {
            AppView { game_over: true, ..self }
        } else {
            let hit = self.cannon.collides_with_laser(&laser);
            AppView {
                lives: if hit {
                    (self.lives - 1) as u8
                } else {
                    self.lives
                },
                cannon: if hit {
                    self.cannon.spec_reset()
                } else {
                    self.cannon
                },
                bunkers: self.bunkers.shot(laser),
                invader_lasers: if hit || self.bunkers.struck_by_laser(laser) {
                    self.invader_lasers
                } else {
                    self.invader_lasers.push(laser)
                },
                ..self
            }
        }
    }

    /// The game after the given lasers of the invaders, in turn, met their
    /// targets: the lasers that hit nothing are the invaders' lasers left.
    pub open spec fn invader_pass(self, lasers: Seq<Laser>) -> AppView
        decreases lasers.len(),
    {
        if lasers.len() == 0 {
            AppView { invader_lasers: Seq::empty(), ..self }
        } else {
            self.invader_pass(lasers.drop_last()).bomb(lasers.last())
        }
    }

    /// A collision pass over a game in progress. A formation that has
    /// landed or reached the cannon ends the game at once. Otherwise the
    /// cannon's lasers meet their targets, then the invaders' lasers; if
    /// the cannon lost its last life the pass ends there, with the
    /// invaders' lasers left as they were. Otherwise the invaders that have
    /// come down to the bunkers eat into them.
    pub open spec fn collided(self) -> AppView {
        if !self.grid.is_visible() || self.grid.collides_with_cannon(self.cannon) {
            AppView { game_over: true, ..self }
        } else {
            let shot = self.cannon_pass(self.cannon_lasers);
            let bombed = shot.invader_pass(shot.invader_lasers);
            if bombed.game_over {
                AppView { invader_lasers: shot.invader_lasers, ..bombed }
            } else {
                AppView {
                    bunkers: bombed.bunkers.eaten_by_all(
                        bombed.grid.overlapping(BunkersView::area()),
                    ),
                    ..bombed
                }
            }
        }
    }

    /// The game after every laser moved on and those that left the
    /// playfield were removed.
    pub open spec fn lasers_moved(self) -> AppView {
        AppView {
            cannon_lasers: lasers_ticked(self.cannon_lasers),
            invader_lasers: lasers_ticked(self.invader_lasers),
            ..self
        }
    }

    /// The formation speeds up as it thins: once no more than half the
    /// threshold are left, the threshold is halved and the rest between
    /// moves is a tick shorter, down to none.
    pub open spec fn threshold_checked(self) -> AppView {
        if self.grid.count() <= self.count_threshold / 2 {
            AppView {
                count_threshold: self.count_threshold / 2,
                alien_counter_max: if self.alien_counter_max > 0 {
                    (self.alien_counter_max - 1) as u8
                } else {
                    0
                },
                ..self
            }
        } else {
            self
        }
    }

    /// The level after this one: the next, or the first after the last.
    pub open spec fn next_level(self) -> u8 {
        if self.level < MAX_LEVEL {
            (self.level + 1) as u8
        } else {
            0
        }
    }

    /// The last step of a tick: a cleared formation is followed by a fresh
    /// one at the next level, a thinned one may speed up.
    pub open spec fn level_checked(self) -> AppView {
        if self.grid.is_empty() {
            (AppView { level: self.next_level(), ..self }).reset_grid()
        } else {
            self.threshold_checked()
        }
    }

    /// The game one tick later, if the formation's choice of a column to
    /// fire from, should it make one, falls on `column`. Nothing happens
    /// unless the game is running; and if the first collision pass ends
    /// the game, the tick ends there.
    pub open spec fn ticked(self, column: int) -> AppView {
        if !self.playing() {
            self
        } else {
            let met = self.mystery_ship_ticked().grid_moved(column).collided();
            if !met.playing() {
                met
            } else {
                met.lasers_moved().collided().level_checked()
            }
        }
    }

    /// The game after the command to move left.
    pub open spec fn on_left(self) -> AppView {
        if self.playing() {
            AppView { cannon: self.cannon.moved_left(), ..self }
        } else {
            self
        }
    }

    /// The game after the command to move right.
    pub open spec fn on_right(self) -> AppView {
        if self.playing() {
            AppView { cannon: self.cannon.moved_right(), ..self }
        } else {
            self
        }
    }

    /// The game after the space bar: it starts a new game, restarts one
    /// that is over, and in a running game fires the cannon unless as many
    /// of its lasers fly as are allowed.
    pub open spec fn on_space(self) -> AppView {
        if !self.started {
            AppView { started: true, ..self }
        } else if self.game_over {
            self.reset_game()
        } else if self.playing() && self.cannon_lasers.len() < self.max_cannon_lasers {
            AppView {
                cannon_lasers: self.cannon_lasers.push(Laser::spec_new_cannon(self.cannon.left)),
                ..self
            }
        } else {
            self
        }
    }

    /// The game after the command to show or leave the help.
    pub open spec fn on_h(self) -> AppView {
        if self.playing() || self.show_help {
            AppView { show_help: !self.show_help, ..self }
        } else {
            self
        }
    }

    /// The game after the command to pause or go on.
    pub open spec fn on_p(self) -> AppView {
        if self.playing() || self.paused {
            AppView { paused: !self.paused, ..self }
        } else {
            self
        }
    }

    /// The game after any of the commands to quit.
    pub open spec fn quit(self) -> AppView {
        AppView { should_quit: true, ..self }
    }
}

/// Lasers taken from among visible ones are visible.
pub proof fn lemma_among_visible(kept: Seq<Laser>, lasers: Seq<Laser>)
    requires
        lasers_among(kept, lasers),
        lasers_visible(lasers),
    ensures
        lasers_visible(kept),
{
    assert forall|i: int| 0 <= i < kept.len() implies (#[trigger] kept[i]).is_visible() by {
        assert(lasers.contains(kept[i]));
        let j = choose|j: int| 0 <= j < lasers.len() && lasers[j] == kept[i];
        assert(lasers[j].is_visible());
    }
}

/// Lasers taken from among ones that can move on can move on.
pub proof fn lemma_among_can_advance(kept: Seq<Laser>, lasers: Seq<Laser>)
    requires
        lasers_among(kept, lasers),
        lasers_can_advance(lasers),
    ensures
        lasers_can_advance(kept),
{
    assert forall|i: int| 0 <= i < kept.len() implies (#[trigger] kept[i]).can_advance() by {
        assert(lasers.contains(kept[i]));
        let j = choose|j: int| 0 <= j < lasers.len() && lasers[j] == kept[i];
        assert(lasers[j].can_advance());
    }
}

/// The lasers left after a tick are inside the playfield, and no more than
/// before.
pub proof fn lemma_lasers_ticked(lasers: Seq<Laser>)
    ensures
        lasers_visible(lasers_ticked(lasers)),
        lasers_ticked(lasers).len() <= lasers.len(),
    decreases lasers.len(),
{
    if lasers.len() > 0 {
        lemma_lasers_ticked(lasers.drop_last());
    }
}

impl AppView {
    /// A cannon laser changes nothing but the formation, the score, the
    /// mystery ship, the bunkers and the cannon's lasers.
    pub open spec fn cannon_pass_frame(self, after: AppView) -> bool {
        after == (AppView {
            grid: after.grid,
            score: after.score,
            mystery_ship: after.mystery_ship,
            bunkers: after.bunkers,
            cannon_lasers: after.cannon_lasers,
            ..self
        })
    }

    /// A laser of the invaders changes nothing but the lives, the cannon,
    /// the bunkers, the invaders' lasers and whether the game is over.
    pub open spec fn invader_pass_frame(self, after: AppView) -> bool {
        after == (AppView {
            game_over: after.game_over,
            lives: after.lives,
            cannon: after.cannon,
            bunkers: after.bunkers,
            invader_lasers: after.invader_lasers,
            ..self
        })
    }

    /// What a cannon laser can and cannot do.
    pub proof fn lemma_shoot(self, laser: Laser)
        requires
            self.grid.wf(),
            self.score + hit_room(1) <= u32::MAX,
        ensures
            self.cannon_pass_frame(self.shoot(laser)),
            self.shoot(laser).grid.wf(),
            self.grid.in_field() ==> self.shoot(laser).grid.in_field(),
            self.shoot(laser).grid.left == self.grid.left,
            self.shoot(laser).grid.bottom == self.grid.bottom,
            self.shoot(laser).grid.direction == self.grid.direction,
            self.shoot(laser).grid.count() <= self.grid.count(),
            self.shoot(laser).score >= self.score,
            self.shoot(laser).score + hit_room(self.shoot(laser).cannon_lasers.len()) <= self.score
                + hit_room(self.cannon_lasers.len() + 1),
            self.shoot(laser).cannon_lasers == self.cannon_lasers || self.shoot(
                laser,
            ).cannon_lasers == self.cannon_lasers.push(laser),
            self.shoot(laser).bunkers.worn_from(self.bunkers),
    {
        self.grid.lemma_shot(laser);
        self.bunkers.lemma_shot(laser);
        if self.mystery_ship.area().overlaps(laser.area()) {
            MysteryShip::lemma_hit_offset(self.mystery_ship, laser);
        }
    }

    /// What a pass of the cannon's lasers can and cannot do.
    pub proof fn lemma_cannon_pass(self, lasers: Seq<Laser>)
        requires
            self.grid.wf(),
            self.score + hit_room(lasers.len()) <= u32::MAX,
        ensures
            self.cannon_pass_frame(self.cannon_pass(lasers)),
            self.cannon_pass(lasers).grid.wf(),
            self.grid.in_field() ==> self.cannon_pass(lasers).grid.in_field(),
            self.cannon_pass(lasers).grid.left == self.grid.left,
            self.cannon_pass(lasers).grid.bottom == self.grid.bottom,
            self.cannon_pass(lasers).grid.direction == self.grid.direction,
            self.cannon_pass(lasers).grid.count() <= self.grid.count(),
            self.cannon_pass(lasers).score >= self.score,
            self.cannon_pass(lasers).score + hit_room(self.cannon_pass(lasers).cannon_lasers.len())
                <= self.score + hit_room(lasers.len()),
            self.cannon_pass(lasers).cannon_lasers.len() <= lasers.len(),
            lasers_among(self.cannon_pass(lasers).cannon_lasers, lasers),
            self.cannon_pass(lasers).bunkers.worn_from(self.bunkers),
        decreases lasers.len(),
    {
        if lasers.len() > 0 {
            let before = self.cannon_pass(lasers.drop_last());
            self.lemma_cannon_pass(lasers.drop_last());
            before.lemma_shoot(lasers.last());
            let after = before.shoot(lasers.last());
            assert forall|i: int| 0 <= i < after.cannon_lasers.len() implies lasers.contains(
                #[trigger] after.cannon_lasers[i],
            ) by {
                if i < before.cannon_lasers.len() {
                    assert(lasers.drop_last().contains(before.cannon_lasers[i]));
                    let j = choose|j: int|
                        0 <= j < lasers.drop_last().len() && lasers.drop_last()[j]
                            == before.cannon_lasers[i];
                    assert(lasers[j] == after.cannon_lasers[i]);
                } else {
                    assert(lasers[lasers.len() - 1] == after.cannon_lasers[i]);
                }
            }
        }
    }

    /// What a laser of the invaders can and cannot do.
    pub proof fn lemma_bomb(self, laser: Laser)
        ensures
            self.invader_pass_frame(self.bomb(laser)),
            self.game_over ==> self.bomb(laser) == self,
            self.cannon.wf() ==> self.bomb(laser).cannon.wf(),
            self.bomb(laser).lives <= self.lives,
            self.bomb(laser).invader_lasers == self.invader_lasers || self.bomb(
                laser,
            ).invader_lasers == self.invader_lasers.push(laser),
            self.bomb(laser).bunkers.worn_from(self.bunkers),
            !self.game_over && self.cannon.collides_with_laser(&laser) ==> if self.lives == 0 {
                self.bomb(laser).game_over
            } else {
                self.bomb(laser).lives == self.lives - 1 && self.bomb(laser).cannon
                    == self.cannon.spec_reset()
            },
    {
        self.bunkers.lemma_shot(laser);
    }

    /// What a pass of the invaders' lasers can and cannot do.
    pub proof fn lemma_invader_pass(self, lasers: Seq<Laser>)
        ensures
            self.invader_pass_frame(self.invader_pass(lasers)),
            self.cannon.wf() ==> self.invader_pass(lasers).cannon.wf(),
            self.invader_pass(lasers).lives <= self.lives,
            self.invader_pass(lasers).invader_lasers.len() <= lasers.len(),
            lasers_among(self.invader_pass(lasers).invader_lasers, lasers),
            self.invader_pass(lasers).bunkers.worn_from(self.bunkers),
        decreases lasers.len(),
    {
        if lasers.len() > 0 {
            let before = self.invader_pass(lasers.drop_last());
            self.lemma_invader_pass(lasers.drop_last());
            before.lemma_bomb(lasers.last());
            let after = before.bomb(lasers.last());
            assert forall|i: int| 0 <= i < after.invader_lasers.len() implies lasers.contains(
                #[trigger] after.invader_lasers[i],
            ) by {
                if i < before.invader_lasers.len() {
                    assert(lasers.drop_last().contains(before.invader_lasers[i]));
                    let j = choose|j: int|
                        0 <= j < lasers.drop_last().len() && lasers.drop_last()[j]
                            == before.invader_lasers[i];
                    assert(lasers[j] == after.invader_lasers[i]);
                } else {
                    assert(lasers[lasers.len() - 1] == after.invader_lasers[i]);
                }
            }
        }
    }

    /// Once the cannon has lost its last life, the rest of the invaders'
    /// lasers change nothing.
    pub proof fn lemma_invader_pass_stops(self, lasers: Seq<Laser>, done: int)
        requires
            0 <= done <= lasers.len(),
            self.invader_pass(lasers.take(done)).game_over,
        ensures
            self.invader_pass(lasers) == self.invader_pass(lasers.take(done)),
        decreases lasers.len() - done,
    {
        if done < lasers.len() {
            assert(lasers.take(done + 1).drop_last() =~= lasers.take(done));
            self.lemma_invader_pass_stops(lasers, done + 1);
        } else {
            assert(lasers.take(done) =~= lasers);
        }
    }

    /// What a collision pass can and cannot do: it keeps the entities well
    /// formed; it changes nothing but the score, the formation, the
    /// mystery ship, the bunkers, the lasers, the lives, the cannon
    /// and whether the game is over; the score does not drop and has room
    /// left for every laser left; no invader, laser or bunker pixel is
    /// added, and the formation stays where it is.
    pub proof fn lemma_collided(self)
        requires
            self.wf_entities(),
            !self.game_over,
            self.score + hit_room(self.cannon_lasers.len()) <= u32::MAX,
        ensures
            self.collided().wf_entities(),
            self.collided() == (AppView {
                game_over: self.collided().game_over,
                score: self.collided().score,
                grid: self.collided().grid,
                mystery_ship: self.collided().mystery_ship,
                bunkers: self.collided().bunkers,
                cannon_lasers: self.collided().cannon_lasers,
                invader_lasers: self.collided().invader_lasers,
                lives: self.collided().lives,
                cannon: self.collided().cannon,
                ..self
            }),
            self.collided().score >= self.score,
            self.collided().score + hit_room(self.collided().cannon_lasers.len()) <= self.score
                + hit_room(self.cannon_lasers.len()),
            self.collided().grid.count() <= self.grid.count(),
            self.collided().grid.left == self.grid.left,
            self.collided().grid.bottom == self.grid.bottom,
            self.collided().grid.direction == self.grid.direction,
            lasers_among(self.collided().cannon_lasers, self.cannon_lasers),
            lasers_among(self.collided().invader_lasers, self.invader_lasers),
            self.collided().game_over ==> self.collided().invader_lasers == self.invader_lasers,
            self.collided().bunkers.worn_from(self.bunkers),
    {
        if !self.grid.is_visible() || self.grid.collides_with_cannon(self.cannon) {
            assert forall|i: int| 0 <= i < self.cannon_lasers.len() implies self.cannon_lasers.contains(
                #[trigger] self.cannon_lasers[i],
            ) by {}
            assert forall|i: int| 0 <= i < self.invader_lasers.len() implies self.invader_lasers.contains(
                #[trigger] self.invader_lasers[i],
            ) by {}
        } else {
            self.lemma_cannon_pass(self.cannon_lasers);
            let shot = self.cannon_pass(self.cannon_lasers);
            shot.lemma_invader_pass(shot.invader_lasers);
            let bombed = shot.invader_pass(shot.invader_lasers);
            assert(shot.invader_lasers == self.invader_lasers);
            bombed.bunkers.lemma_eaten_by_all(bombed.grid.overlapping(BunkersView::area()));
            if bombed.game_over {
                assert forall|i: int| 0 <= i < self.invader_lasers.len() implies self.invader_lasers.contains(
                    #[trigger] self.invader_lasers[i],
                ) by {}
            }
        }
    }

    /// The formation's step keeps the game's entities well formed and adds
    /// at most one laser, which can move on.
    pub proof fn lemma_grid_moved(self, column: int)
        requires
            self.wf(),
            self.can_tick(),
            !self.game_over,
        ensures
            self.grid_moved(column).wf_entities(),
            self.grid_moved(column) == (AppView {
                grid: self.grid_moved(column).grid,
                alien_counter: self.grid_moved(column).alien_counter,
                invader_laser_counter: self.grid_moved(column).invader_laser_counter,
                invader_lasers: self.grid_moved(column).invader_lasers,
                ..self
            }),
            self.grid_moved(column).grid.count() == self.grid.count(),
            self.grid_moved(column).grid.bottom >= self.grid.bottom - INVADER_MOVE_Y,
            self.alien_counter == 0 ==> self.grid.can_move() && self.grid.moved().can_fire(),
            lasers_visible_but_newest(self.grid_moved(column).invader_lasers),
            lasers_can_advance(self.grid_moved(column).invader_lasers),
            self.playing() && !self.fires() ==> self.grid_moved(column) == self.grid_moved(0),
    {
        let after = self.grid_moved(column);
        assert(lasers_can_advance(self.invader_lasers)) by {
            assert forall|i: int| 0 <= i < self.invader_lasers.len() implies (
            #[trigger] self.invader_lasers[i]).can_advance() by {
                assert(self.invader_lasers[i].is_visible());
            }
        }
        if self.alien_counter == 0 {
            self.lemma_grid_can_move();
            self.grid.lemma_moved_wf();
            self.grid.lemma_moved_in_field();
            let grid = self.grid.moved();
            grid.lemma_first_armed(column, 0);
            grid.lemma_first_armed(0, 0);
            if self.grid.is_empty() {
                assert forall|r: int| 0 <= r < grid.rows.len() implies (
                #[trigger] grid.rows[r]).is_empty() by {
                    assert(self.grid.rows[r].is_empty());
                }
                grid.lemma_wf_facts();
            }
            let row = grid.first_armed(column, 0);
            if row < grid.rows.len() {
                assert(grid.alive(row, column));
                assert(grid.rows[row].wf());
                assert(grid.rows[row].alive(column));
            }
        }
    }

    /// A well-formed formation whose origin has room can move, and after
    /// the move any of its invaders can fire.
    pub proof fn lemma_grid_can_move(self)
        requires
            self.wf_entities(),
            self.can_tick(),
        ensures
            self.grid.can_move(),
            self.grid.moved().can_fire(),
            self.grid.moved().bottom >= self.grid.bottom - INVADER_MOVE_Y,
            forall|r: int, c: int| #[trigger]
                self.grid.moved().alive(r, c) ==> self.grid.moved().invader(r, c).bottom
                    >= self.grid.bottom - INVADER_MOVE_Y,
    {
        let grid = self.grid;
        assert forall|r: int| 0 <= r < grid.rows.len() implies (#[trigger] grid.rows[r]).can_move_down(
            INVADER_MOVE_Y,
        ) && grid.rows[r].can_move_along(grid.direction, INVADER_MOVE_X) by {
            assert(grid.rows[r].wf());
            assert forall|c: int| #[trigger] grid.rows[r].alive(c) implies fits(
                grid.rows[r].invaders[c].unwrap().left + grid.direction.signed(INVADER_MOVE_X),
            ) && fits(grid.rows[r].invaders[c].unwrap().bottom - INVADER_MOVE_Y) by {
                assert(grid.alive(r, c));
            }
        }
        grid.lemma_moved_wf();
        grid.lemma_moved_in_field();
        let moved = grid.moved();
        assert forall|r: int, c: int| #[trigger] moved.alive(r, c) implies fits(
            moved.invader(r, c).left + ALIEN_WIDTH / 2,
        ) && fits(moved.invader(r, c).bottom - LASER_HEIGHT) && moved.invader(r, c).bottom
            >= self.grid.bottom - INVADER_MOVE_Y by {
            assert(moved.rows[r].wf());
            assert(moved.rows[r].alive(c));
        }
    }
}

impl AppView {
    /// What holds of the steps of a tick of a running game, one after the
    /// other: each leaves what the next one needs.
    pub proof fn lemma_tick_steps(self, column: int)
        requires
            self.wf(),
            self.can_tick(),
            self.playing(),
        ensures
            ({
                let flown = self.mystery_ship_ticked();
                let moved = flown.grid_moved(column);
                let met = moved.collided();
                let advanced = met.lasers_moved();
                let settled = advanced.collided();
                let after = settled.level_checked();
                &&& flown.alien_counter == 0 ==> flown.grid.can_move() && flown.grid.moved().can_fire()
                &&& moved.wf_entities()
                &&& !moved.game_over
                &&& moved.score + hit_room(moved.cannon_lasers.len()) <= u32::MAX
                &&& moved.grid.count() == self.grid.count()
                &&& self.playing() && !self.fires() ==> moved == flown.grid_moved(0)
                &&& met.wf_entities()
                &&& met.game_over ==> met.wf()
                &&& met.score >= self.score
                &&& met.grid.count() <= self.grid.count()
                &&& met.bunkers.worn_from(self.bunkers)
                &&& met.playing() == !met.game_over
                &&& met.playing() ==> {
                    &&& lasers_can_advance(met.cannon_lasers)
                    &&& lasers_can_advance(met.invader_lasers)
                    &&& advanced.wf()
                    &&& advanced.score + hit_room(advanced.cannon_lasers.len()) <= u32::MAX
                    &&& settled.wf()
                    &&& settled.score >= self.score
                    &&& settled.grid.count() <= self.grid.count()
                    &&& settled.bunkers.worn_from(self.bunkers)
                    &&& after.wf()
                }
            }),
    {
        let flown = self.mystery_ship_ticked();
        flown.lemma_grid_moved(column);
        let moved = flown.grid_moved(column);
        moved.lemma_collided();
        let met = moved.collided();
        lemma_among_visible(met.cannon_lasers, moved.cannon_lasers);
        if met.game_over {
        } else {
            lemma_among_can_advance(met.invader_lasers, moved.invader_lasers);
            assert(lasers_can_advance(met.cannon_lasers)) by {
                assert forall|i: int| 0 <= i < met.cannon_lasers.len() implies (
                #[trigger] met.cannon_lasers[i]).can_advance() by {
                    assert(met.cannon_lasers[i].is_visible());
                }
            }
            let advanced = met.lasers_moved();
            lemma_lasers_ticked(met.cannon_lasers);
            lemma_lasers_ticked(met.invader_lasers);
            advanced.lemma_collided();
            let settled = advanced.collided();
            lemma_among_visible(settled.cannon_lasers, advanced.cannon_lasers);
            lemma_among_visible(settled.invader_lasers, advanced.invader_lasers);
            settled.lemma_level_checked();
        }
    }

    /// The last step of a tick keeps a game well formed; it changes the
    /// level exactly when the formation is cleared, and then the pace and
    /// the threshold start afresh; otherwise neither grows.
    pub proof fn lemma_level_checked(self)
        requires
            self.wf(),
        ensures
            self.level_checked().wf(),
            self.level_checked() == (AppView {
                level: self.level_checked().level,
                grid: self.level_checked().grid,
                count_threshold: self.level_checked().count_threshold,
                alien_counter_max: self.level_checked().alien_counter_max,
                ..self
            }),
            self.grid.is_empty() <==> self.level_checked().level != self.level,
            self.grid.is_empty() ==> {
                &&& self.level_checked().level == self.next_level()
                &&& self.level_checked().grid == GridView::spec_new(self.next_level())
                &&& self.level_checked().grid.count() == 40
                &&& self.level_checked().count_threshold == 40
                &&& self.level_checked().alien_counter_max == ALIEN_COUNTER_DEFAULT
            },
            !self.grid.is_empty() ==> {
                &&& self.level_checked().grid == self.grid
                &&& self.level_checked().count_threshold <= self.count_threshold
                &&& self.level_checked().alien_counter_max <= self.alien_counter_max
            },
    {
        GridView::lemma_new(self.next_level());
    }

    /// What a tick does to a well-formed game: it leaves it well formed;
    /// it does nothing unless the game is running; the score never
    /// drops and no bunker gains a pixel; and as long as the level stays,
    /// the number of invaders, the rest between the formation's moves and
    /// the threshold do not grow, while a new level starts with a full
    /// formation and both afresh. The column handed to the tick matters
    /// only on a tick on which the formation fires.
    pub proof fn lemma_ticked(self, column: int)
        requires
            self.wf(),
            self.can_tick(),
        ensures
            self.ticked(column).wf(),
            !self.playing() ==> self.ticked(column) == self,
            self.ticked(column).score >= self.score,
            self.ticked(column).bunkers.worn_from(self.bunkers),
            self.ticked(column).level == self.level ==> {
                &&& self.ticked(column).grid.count() <= self.grid.count()
                &&& self.ticked(column).alien_counter_max <= self.alien_counter_max
                &&& self.ticked(column).count_threshold <= self.count_threshold
            },
            self.ticked(column).level != self.level ==> {
                &&& self.ticked(column).level == self.next_level()
                &&& self.ticked(column).grid == GridView::spec_new(self.next_level())
                &&& self.ticked(column).grid.count() == 40
                &&& self.ticked(column).count_threshold == 40
                &&& self.ticked(column).alien_counter_max == ALIEN_COUNTER_DEFAULT
            },
            self.ticked(column).started == self.started,
            self.ticked(column).paused == self.paused,
            self.ticked(column).show_help == self.show_help,
            self.ticked(column).should_quit == self.should_quit,
            self.ticked(column).hiscore == self.hiscore,
            self.ticked(column).max_cannon_lasers == self.max_cannon_lasers,
            self.ticked(column).max_invader_lasers == self.max_invader_lasers,
            self.ticked(column).mystery_ship_interval == self.mystery_ship_interval,
            !self.fires() ==> self.ticked(column) == self.ticked(0),
    {
        if self.playing() {
            self.lemma_tick_steps(column);
            self.lemma_tick_steps(0);
            let flown = self.mystery_ship_ticked();
            flown.lemma_grid_moved(column);
            let moved = flown.grid_moved(column);
            moved.lemma_collided();
            let met = moved.collided();
            if met.playing() {
                let advanced = met.lasers_moved();
                advanced.lemma_collided();
                let settled = advanced.collided();
                settled.lemma_level_checked();
            }
        }
    }
}

impl App {
    /// Sets up a new game, waiting to be started. A starting level above
    /// the highest is lowered to it.
    pub fn new(
        mystery_ship_interval: u16,
        max_cannon_lasers: u8,
        max_invader_lasers: u8,
        level: u8,
    ) -> (app: App)
        ensures
            app@ == AppView::spec_new(
                mystery_ship_interval,
                max_cannon_lasers,
                max_invader_lasers,
                level,
            ),
            app@.wf(),
            app@.can_tick(),
    {
        let level = if level > MAX_LEVEL {
            MAX_LEVEL
        } else {
            level
        };
        let grid = InvaderGrid::new(level);
        let count_threshold = grid.count();
        let app = App {
            started: false,
            game_over: false,
            score: 0,
            hiscore: 0,
            level,
            show_help: false,
            paused: false,
            should_quit: false,
            cannon: Cannon::new_normal(),
            bunkers: Bunkers::new(),
            mystery_ship: MysteryShip::new(),
            mystery_ship_interval,
            mystery_ship_counter: mystery_ship_interval,
            count_threshold,
            grid,
            cannon_lasers: Vec::new(),
            invader_lasers: Vec::new(),
            lives: DEFAULT_LIVES,
            alien_counter: ALIEN_COUNTER_DEFAULT,
            alien_counter_max: ALIEN_COUNTER_DEFAULT,
            invader_laser_counter: INVADER_LASER_COUNTER_DEFAULT,
            max_cannon_lasers: max_cannon_lasers as usize,
            max_invader_lasers: max_invader_lasers as usize,
            rng: rand::thread_rng(),
        };
        proof {
            assert(app@.cannon_lasers =~= Seq::empty());
            assert(app@.invader_lasers =~= Seq::empty());
        }
        app
    }

    /// Starts the game.
    pub fn start(&mut self)
        ensures
            final(self)@ == (AppView { started: true, ..old(self)@ }),
    {
        self.started = true;
    }

    /// Starts over after the game was lost.
    pub fn reset_game(&mut self)
        ensures
            final(self)@ == old(self)@.reset_game(),
            old(self)@.wf() ==> final(self)@.wf() && final(self)@.can_tick(),
    {
        self.game_over = false;
        self.cannon_lasers.clear();
        self.invader_lasers.clear();
        self.level = 0;
        self.score = 0;
        self.lives = DEFAULT_LIVES;
        self.bunkers = Bunkers::new();
        self.mystery_ship.hide_ship();
        self.mystery_ship_counter = self.mystery_ship_interval;
        self.cannon.reset();
        self.reset_grid();
        proof {
            assert(self@.cannon_lasers =~= Seq::empty());
            assert(self@.invader_lasers =~= Seq::empty());
        }
    }

    /// Puts a fresh formation for the current level on the playfield.
    pub fn reset_grid(&mut self)
        ensures
            final(self)@ == old(self)@.reset_grid(),
            final(self)@.grid.wf(),
            final(self)@.grid.in_field(),
            final(self)@.grid.count() == 40,
            final(self)@.count_threshold == 40,
    {
        self.grid = InvaderGrid::new(self.level);
        self.count_threshold = self.grid.count();
        self.alien_counter_max = ALIEN_COUNTER_DEFAULT;
    }

    /// Tells whether the game is running.
    pub fn playing(&self) -> (r: bool)
        ensures
            r == self@.playing(),
    {
        self.started && !self.game_over && !self.paused && !self.show_help
    }

    /// Tells whether every laser is fully inside the playfield; with
    /// `but_newest`, the last laser of the list is let off.
    fn visible(lasers: &Vec<Laser>, but_newest: bool) -> (r: bool)
        ensures
            r == if but_newest {
                lasers_visible_but_newest(lasers@)
            } else {
                lasers_visible(lasers@)
            },
    {
        let end = if but_newest && lasers.len() > 0 {
            lasers.len() - 1
        } else {
            lasers.len()
        };
        let mut i: usize = 0;
        while i < end
            invariant
                i <= end <= lasers.len(),
                end == if but_newest && lasers.len() > 0 {
                    lasers.len() - 1
                } else {
                    lasers.len() as int
                },
                forall|j: int| 0 <= j < i ==> (#[trigger] lasers[j]).is_visible(),
            decreases end - i,
        {
            if !lasers[i].is_visible() {
                return false;
            }
            i += 1;
        }
        true
    }

    /// Tells whether the game is well formed, as every game is that was
    /// set up by `new` and changed by ticks and commands only.
    pub fn is_wf(&self) -> (r: bool)
        ensures
            r == self@.wf(),
    {
        self.cannon.is_wf() && self.grid.is_wf() && self.grid.is_in_field()
            && self.cannon_lasers.len() <= self.max_cannon_lasers && self.invader_lasers.len()
            <= self.max_invader_lasers && self.lives <= DEFAULT_LIVES && self.level <= MAX_LEVEL
            && self.alien_counter <= ALIEN_COUNTER_DEFAULT && self.alien_counter_max
            <= ALIEN_COUNTER_DEFAULT && self.invader_laser_counter <= INVADER_LASER_COUNTER_DEFAULT
            && App::visible(&self.cannon_lasers, false) && App::visible(&self.invader_lasers, true)
            && (self.game_over || App::visible(&self.invader_lasers, false))
    }

    /// Tells whether the next tick stays within the machine's integers.
    pub fn can_tick(&self) -> (r: bool)
        ensures
            r == self@.can_tick(),
    {
        let lasers = self.cannon_lasers.len();
        lasers <= 21474836 && self.score as u64 + 200 * (lasers as u64) <= u32::MAX as u64
            && self.grid.bottom >= i32::MIN + INVADER_MOVE_Y + LASER_HEIGHT + LASER_MOVE
            && self.grid.left >= i32::MIN + INVADER_MOVE_X && self.grid.left <= i32::MAX
            - INVADER_MOVE_X
    }

    /// Tells whether the next tick lets a column of the formation fire.
    pub fn fires(&self) -> (r: bool)
        ensures
            r == self@.fires(),
    {
        self.playing() && self.alien_counter == 0 && self.invader_laser_counter <= 1
            && self.invader_lasers.len() < self.max_invader_lasers && !self.grid.is_empty()
    }

    /// Advances the game by one tick. The column that fires, if the
    /// formation fires on this tick, is chosen at random.
    ///
    /// Whichever column is chosen, the game afterwards is the one the tick
    /// leads to for that column, and all that holds after every tick holds.
    pub fn on_tick(&mut self)
        requires
            old(self)@.wf(),
            old(self)@.can_tick(),
        ensures
            exists|column: int|
                0 <= column < INVADERS_PER_ROW && final(self)@ == old(self)@.ticked(column),
            !old(self)@.fires() ==> final(self)@ == old(self)@.ticked(0),
            final(self)@.wf(),
            !old(self)@.playing() ==> *final(self) == *old(self),
            final(self).score >= old(self).score,
            final(self)@.bunkers.worn_from(old(self)@.bunkers),
            final(self).level == old(self).level ==> {
                &&& final(self)@.grid.count() <= old(self)@.grid.count()
                &&& final(self).alien_counter_max <= old(self).alien_counter_max
                &&& final(self).count_threshold <= old(self).count_threshold
            },
            final(self).level != old(self).level ==> {
                &&& final(self)@.grid.count() == 40
                &&& final(self).count_threshold == 40
                &&& final(self).alien_counter_max == ALIEN_COUNTER_DEFAULT
            },
    {
        let column = if self.fires() {
            sample_below(&mut self.rng, INVADERS_PER_ROW)
        } else {
            0
        };
        proof {
            self@.lemma_ticked(column as int);
        }
        self.on_tick_with(column);
    }

    /// Advances the game by one tick in which `column` is the column that
    /// fires, if the formation fires on this tick.
    pub fn on_tick_with(&mut self, column: usize)
        requires
            old(self)@.wf(),
            old(self)@.can_tick(),
        ensures
            final(self)@ == old(self)@.ticked(column as int),
            final(self)@.wf(),
            !old(self)@.playing() ==> *final(self) == *old(self),
            final(self).score >= old(self).score,
            final(self)@.bunkers.worn_from(old(self)@.bunkers),
            final(self).level == old(self).level ==> {
                &&& final(self)@.grid.count() <= old(self)@.grid.count()
                &&& final(self).alien_counter_max <= old(self).alien_counter_max
                &&& final(self).count_threshold <= old(self).count_threshold
            },
            final(self).level != old(self).level ==> {
                &&& final(self)@.grid.count() == 40
                &&& final(self).count_threshold == 40
                &&& final(self).alien_counter_max == ALIEN_COUNTER_DEFAULT
            },
    {
        proof {
            self@.lemma_ticked(column as int);
        }
        if !self.playing() {
            return;
        }
        proof {
            self@.lemma_tick_steps(column as int);
        }
        self.mystery_ship_on_tick();
        self.move_grid(column);
        self.check_collisions();

        if !self.playing() {
            return;
        }
        self.lasers_on_tick();
        self.check_collisions();

        if self.grid.is_empty() {
            if self.level < MAX_LEVEL {
                self.level = self.level + 1;
            } else {
                self.level = 0;
            }
            self.reset_grid();
        } else {
            self.check_threshold();
        }
    }

    /// The mystery ship's part of a tick.
    fn mystery_ship_on_tick(&mut self)
        ensures
            final(self)@ == old(self)@.mystery_ship_ticked(),
    {
        if self.mystery_ship_counter == 0 {
            if self.mystery_ship.is_visible() {
                self.mystery_ship.on_tick();
            } else {
                self.mystery_ship.reset();
                self.mystery_ship_counter = self.mystery_ship_interval;
            }
        } else {
            self.mystery_ship_counter = self.mystery_ship_counter - 1;
        }
    }

    /// Moves all lasers on and removes those that left the playfield.
    fn lasers_on_tick(&mut self)
        requires
            lasers_can_advance(old(self)@.cannon_lasers),
            lasers_can_advance(old(self)@.invader_lasers),
        ensures
            final(self)@ == old(self)@.lasers_moved(),
    {
        App::advance_lasers(&mut self.cannon_lasers);
        App::advance_lasers(&mut self.invader_lasers);
    }

    /// Moves every laser on and removes those that left the playfield.
    fn advance_lasers(lasers: &mut Vec<Laser>)
        requires
            lasers_can_advance(old(lasers)@),
        ensures
            final(lasers)@ == lasers_ticked(old(lasers)@),
    {
        let mut kept: Vec<Laser> = Vec::new();
        let mut i: usize = 0;
        while i < lasers.len()
            invariant
                i <= lasers.len(),
                *lasers == *old(lasers),
                lasers_can_advance(lasers@),
                kept@ == lasers_ticked(lasers@.take(i as int)),
            decreases lasers.len() - i,
        {
            assert(lasers@.take(i + 1).drop_last() =~= lasers@.take(i as int));
            let mut laser = lasers[i];
            laser.on_tick();
            if laser.is_visible() {
                kept.push(laser);
            }
            i += 1;
        }
        assert(lasers@.take(i as int) =~= lasers@);
        *lasers = kept;
    }

    /// Lets one cannon laser meet its targets.
    fn shoot(&mut self, laser: Laser)
        requires
            old(self)@.grid.wf(),
            old(self).score + hit_room(1) <= u32::MAX,
        ensures
            final(self)@ == old(self)@.shoot(laser),
    {
        proof {
            self@.grid.lemma_shot(laser);
        }
        if let Some(points) = self.grid.collides_with_laser(&laser) {
            self.score = self.score + points;
        } else if let Some(points) = self.mystery_ship.collides_with(&laser) {
            proof {
                MysteryShip::lemma_hit_offset(self.mystery_ship, laser);
            }
            self.score = self.score + points;
            self.mystery_ship.hide_ship();
        } else if !self.bunkers.collides_with_laser(&laser) {
            self.cannon_lasers.push(laser);
        }
    }

    /// Lets one laser of the invaders meet its targets.
    fn bomb(&mut self, laser: Laser)
        ensures
            final(self)@ == old(self)@.bomb(laser),
    {
        if self.game_over {
            return;
        }
        let hit = self.cannon.collides_with_laser(&laser);
        if hit {
            if self.lives == 0 {
                self.game_over = true;
                return;
            }
            self.lives = self.lives - 1;
            self.cannon.reset();
        }
        let burnt = self.bunkers.collides_with_laser(&laser);
        if !hit && !burnt {
            self.invader_lasers.push(laser);
        }
    }

    /// Runs a collision pass over a game in progress.
    fn check_collisions(&mut self)
        requires
            old(self)@.wf_entities(),
            !old(self).game_over,
            old(self).score + hit_room(old(self)@.cannon_lasers.len()) <= u32::MAX,
        ensures
            final(self)@ == old(self)@.collided(),
    {
        if !self.grid.is_visible() {
            self.game_over = true;
            return;
        }
        if self.grid.collides_with_cannon(&self.cannon) {
            self.game_over = true;
            return;
        }
        let ghost start = self@;

        let mut lasers: Vec<Laser> = Vec::new();
        core::mem::swap(&mut lasers, &mut self.cannon_lasers);
        assert(self@ == start.cannon_pass(lasers@.take(0))) by {
            assert(self@.cannon_lasers =~= Seq::empty());
        }
        let mut i: usize = 0;
        while i < lasers.len()
            invariant
                i <= lasers.len(),
                lasers@ == start.cannon_lasers,
                start.grid.wf(),
                start.score + hit_room(lasers.len() as nat) <= u32::MAX,
                self@ == start.cannon_pass(lasers@.take(i as int)),
            decreases lasers.len() - i,
        {
            proof {
                start.lemma_cannon_pass(lasers@.take(i as int));
                assert(lasers@.take(i + 1).drop_last() =~= lasers@.take(i as int));
            }
            self.shoot(lasers[i]);
            i += 1;
        }
        assert(lasers@.take(i as int) =~= lasers@);
        let ghost shot = self@;

        let mut bombs: Vec<Laser> = Vec::new();
        core::mem::swap(&mut bombs, &mut self.invader_lasers);
        assert(self@ == shot.invader_pass(bombs@.take(0))) by {
            assert(self@.invader_lasers =~= Seq::empty());
        }
        let mut j: usize = 0;
        while j < bombs.len() && !self.game_over
            invariant
                j <= bombs.len(),
                bombs@ == shot.invader_lasers,
                self@ == shot.invader_pass(bombs@.take(j as int)),
            decreases bombs.len() - j,
        {
            assert(bombs@.take(j + 1).drop_last() =~= bombs@.take(j as int));
            self.bomb(bombs[j]);
            j += 1;
        }
        proof {
            if self.game_over {
                shot.lemma_invader_pass_stops(bombs@, j as int);
            } else {
                assert(bombs@.take(j as int) =~= bombs@);
            }
            start.lemma_cannon_pass(start.cannon_lasers);
            shot.lemma_invader_pass(shot.invader_lasers);
        }
        if self.game_over {
            self.invader_lasers = bombs;
            return;
        }
        let ghost bombed = self@;

        let invaders = self.grid.collides_with_bunkers(&self.bunkers);
        let mut k: usize = 0;
        while k < invaders.len()
            invariant
                k <= invaders.len(),
                self@ == (AppView {
                    bunkers: bombed.bunkers.eaten_by_all(invaders@.take(k as int)),
                    ..bombed
                }),
            decreases invaders.len() - k,
        {
            assert(invaders@.take(k + 1).drop_last() =~= invaders@.take(k as int));
            self.bunkers.collides_with_invader(&invaders[k]);
            k += 1;
        }
        assert(invaders@.take(k as int) =~= invaders@);
    }

    /// The formation's part of a tick; `column` fires if a column does.
    fn move_grid(&mut self, column: usize)
        requires
            old(self).alien_counter == 0 ==> old(self)@.grid.can_move() && old(
                self,
            )@.grid.moved().can_fire(),
        ensures
            final(self)@ == old(self)@.grid_moved(column as int),
    {
        if self.alien_counter == 0 {
            self.grid.move_along();
            self.alien_counter = self.alien_counter_max;

            if self.invader_laser_counter > 0 {
                self.invader_laser_counter = self.invader_laser_counter - 1;
            }
            if self.invader_laser_counter == 0 && self.invader_lasers.len()
                < self.max_invader_lasers {
                if let Some(laser) = self.grid.laser_at(column) {
                    self.invader_lasers.push(laser);
                    self.invader_laser_counter = INVADER_LASER_COUNTER_DEFAULT;
                }
            }
        } else {
            self.alien_counter = self.alien_counter - 1;
        }
    }

    /// Speeds the formation up if it has thinned enough.
    fn check_threshold(&mut self)
        requires
            old(self)@.grid.wf(),
        ensures
            final(self)@ == old(self)@.threshold_checked(),
    {
        if self.grid.count() <= self.count_threshold / 2 {
            self.count_threshold = self.count_threshold / 2;

            if self.alien_counter_max > 0 {
                self.alien_counter_max = self.alien_counter_max - 1;
            }
        }
    }

    /// Moves the cannon left, if the game is running.
    pub fn on_left(&mut self)
        ensures
            final(self)@ == old(self)@.on_left(),
            old(self)@.wf() ==> final(self)@.wf(),
            old(self)@.can_tick() ==> final(self)@.can_tick(),
    {
        if self.playing() {
            self.cannon.move_left();
        }
    }

    /// Moves the cannon right, if the game is running.
    pub fn on_right(&mut self)
        ensures
            final(self)@ == old(self)@.on_right(),
            old(self)@.wf() ==> final(self)@.wf(),
            old(self)@.can_tick() ==> final(self)@.can_tick(),
    {
        if self.playing() {
            self.cannon.move_right();
        }
    }

    /// Starts the game, restarts it after it was lost, or fires the cannon.
    pub fn on_space(&mut self)
        requires
            old(self).cannon.left + CANNON_LASER_INITIAL_X_OFFSET <= i32::MAX,
        ensures
            final(self)@ == old(self)@.on_space(),
            old(self)@.wf() ==> final(self)@.wf(),
            !(old(self).started && old(self).game_over) ==> final(self).score == old(self).score
                && final(self).level == old(self).level && final(self)@.grid == old(self)@.grid,
            old(self).started && old(self).game_over ==> final(self)@.can_tick(),
    {
        if !self.started {
            self.start()
        } else if self.game_over {
            self.reset_game();
        } else if self.playing() && self.cannon_lasers.len() < self.max_cannon_lasers {
            self.cannon_lasers.push(Laser::new_cannon(self.cannon.left));
        }
        proof {
            if old(self)@.wf() {
                crate::laws::lemma_on_space(old(self)@);
            }
        }
    }

    /// Shows the help, or leaves it.
    pub fn on_h(&mut self)
        ensures
            final(self)@ == old(self)@.on_h(),
            old(self)@.wf() ==> final(self)@.wf(),
            old(self)@.can_tick() ==> final(self)@.can_tick(),
    {
        if self.playing() || self.show_help {
            self.show_help = !self.show_help;
        }
    }

    /// Pauses the game, or goes on with it.
    pub fn on_p(&mut self)
        ensures
            final(self)@ == old(self)@.on_p(),
            old(self)@.wf() ==> final(self)@.wf(),
            old(self)@.can_tick() ==> final(self)@.can_tick(),
    {
        if self.playing() || self.paused {
            self.paused = !self.paused;
        }
    }

    /// Asks the front end to quit.
    pub fn on_q(&mut self)
        ensures
            final(self)@ == old(self)@.quit(),
            old(self)@.wf() ==> final(self)@.wf(),
            old(self)@.can_tick() ==> final(self)@.can_tick(),
    {
        self.should_quit = true;
    }

    /// Asks the front end to quit.
    pub fn on_ctrl_c(&mut self)
        ensures
            final(self)@ == old(self)@.quit(),
            old(self)@.wf() ==> final(self)@.wf(),
            old(self)@.can_tick() ==> final(self)@.can_tick(),
    {
        self.should_quit = true;
    }

    /// Asks the front end to quit.
    pub fn on_esc(&mut self)
        ensures
            final(self)@ == old(self)@.quit(),
            old(self)@.wf() ==> final(self)@.wf(),
            old(self)@.can_tick() ==> final(self)@.can_tick(),
    {
        self.should_quit = true;
    }
}

} // verus!
