//! What holds of every game: the bounds that a well-formed game keeps, that
//! a new game is well formed and every command leaves it so, and what a
//! single hit does.

use vstd::prelude::*;
use crate::app::{
    hit_room, lasers_visible, AppView, ALIEN_COUNTER_DEFAULT, DEFAULT_LIVES, MAX_LEVEL,
};
use crate::grid::{rows_count, GridView};
use crate::invaders::Invader;
use crate::laser::Laser;
use crate::points::{
    CANNON_WIDTH, GAME_HEIGHT, GAME_WIDTH, INVADER_MOVE_Y, LASER_HEIGHT, LASER_MOVE,
};

verus! {

/// In a well-formed game no more lasers fly than are allowed, the cannon
/// is between the walls, lives, level and pace are within their ranges,
/// and the cannon's lasers are inside the playfield; so are the invaders'
/// lasers, but for the one fired last in a game that is over.
pub proof fn lemma_wf_bounds(game: AppView)
    requires
        game.wf(),
    ensures
        game.cannon_lasers.len() <= game.max_cannon_lasers,
        game.invader_lasers.len() <= game.max_invader_lasers,
        0 <= game.cannon.left <= GAME_WIDTH - CANNON_WIDTH,
        game.lives <= DEFAULT_LIVES,
        game.level <= MAX_LEVEL,
        game.alien_counter_max <= ALIEN_COUNTER_DEFAULT,
        game.grid.count() <= 40,
        forall|i: int|
            0 <= i < game.cannon_lasers.len() ==> 0 <= (#[trigger] game.cannon_lasers[i]).bottom
                <= GAME_HEIGHT - LASER_HEIGHT,
        forall|i: int|
            0 <= i < game.invader_lasers.len() - 1 ==> 0 <= (
            #[trigger] game.invader_lasers[i]).bottom <= GAME_HEIGHT - LASER_HEIGHT,
        !game.game_over ==> forall|i: int|
            0 <= i < game.invader_lasers.len() ==> 0 <= (#[trigger] game.invader_lasers[i]).bottom
                <= GAME_HEIGHT - LASER_HEIGHT,
{
    game.grid.lemma_wf_facts();
    assert forall|i: int| 0 <= i < game.cannon_lasers.len() implies 0 <= (
    #[trigger] game.cannon_lasers[i]).bottom <= GAME_HEIGHT - LASER_HEIGHT by {
        assert(game.cannon_lasers[i].is_visible());
    }
    assert forall|i: int| 0 <= i < game.invader_lasers.len() - 1 implies 0 <= (
    #[trigger] game.invader_lasers[i]).bottom <= GAME_HEIGHT - LASER_HEIGHT by {
        assert(game.invader_lasers[i].is_visible());
    }
    if !game.game_over {
        assert forall|i: int| 0 <= i < game.invader_lasers.len() implies 0 <= (
        #[trigger] game.invader_lasers[i]).bottom <= GAME_HEIGHT - LASER_HEIGHT by {
            assert(game.invader_lasers[i].is_visible());
        }
    }
}

/// The number of invaders of a formation is the sum of the counts of its
/// five rows.
pub proof fn lemma_count_is_sum(grid: GridView)
    requires
        grid.rows.len() == 5,
    ensures
        grid.count() == grid.rows[0].count + grid.rows[1].count + grid.rows[2].count
            + grid.rows[3].count + grid.rows[4].count,
{
    let rows = grid.rows;
    let four = rows.drop_last();
    let three = four.drop_last();
    let two = three.drop_last();
    let one = two.drop_last();
    assert(one.drop_last().len() == 0);
    assert(rows_count(one.drop_last()) == 0);
    assert(rows_count(one) == rows[0].count);
    assert(rows_count(two) == rows_count(one) + rows[1].count);
    assert(rows_count(three) == rows_count(two) + rows[2].count);
    assert(rows_count(four) == rows_count(three) + rows[3].count);
    assert(rows_count(rows) == rows_count(four) + rows[4].count);
}

/// A new game is well formed and ready for its first tick, whatever it is
/// set up with.
pub proof fn lemma_new_wf(
    mystery_ship_interval: u16,
    max_cannon_lasers: u8,
    max_invader_lasers: u8,
    level: u8,
)
    ensures
        AppView::spec_new(mystery_ship_interval, max_cannon_lasers, max_invader_lasers, level).wf(),
        AppView::spec_new(
            mystery_ship_interval,
            max_cannon_lasers,
            max_invader_lasers,
            level,
        ).can_tick(),
        AppView::spec_new(
            mystery_ship_interval,
            max_cannon_lasers,
            max_invader_lasers,
            level,
        ).level <= MAX_LEVEL,
        level <= MAX_LEVEL ==> AppView::spec_new(
            mystery_ship_interval,
            max_cannon_lasers,
            max_invader_lasers,
            level,
        ).level == level,
        !AppView::spec_new(
            mystery_ship_interval,
            max_cannon_lasers,
            max_invader_lasers,
            level,
        ).playing(),
{
    let level = if level > MAX_LEVEL {
        MAX_LEVEL
    } else {
        level
    };
    GridView::lemma_new(level);
}

/// The commands that move the cannon, show the help, pause or quit leave a
/// game well formed and leave alone the score, the level, the formation,
/// the lasers and the pace. Outside a running game the commands to move do
/// nothing at all.
pub proof fn lemma_plain_commands(game: AppView)
    requires
        game.wf(),
    ensures
        game.on_left().wf() && game.on_right().wf() && game.on_h().wf() && game.on_p().wf()
            && game.quit().wf(),
        game.on_left() == (AppView { cannon: game.on_left().cannon, ..game }),
        game.on_right() == (AppView { cannon: game.on_right().cannon, ..game }),
        game.on_h() == (AppView { show_help: game.on_h().show_help, ..game }),
        game.on_p() == (AppView { paused: game.on_p().paused, ..game }),
        game.quit() == (AppView { should_quit: true, ..game }),
        !game.playing() ==> game.on_left() == game && game.on_right() == game,
        game.can_tick() ==> game.on_left().can_tick() && game.on_right().can_tick()
            && game.on_h().can_tick() && game.on_p().can_tick() && game.quit().can_tick(),
{
}

/// The space bar leaves a game well formed. Unless it restarts a game that
/// is over, it leaves alone the score, the level, the formation and the
/// pace, and adds at most one laser of the cannon; in a game that is paused
/// or shows the help it does nothing. A restart begins at the first level
/// with no points, all lives and a full formation.
pub proof fn lemma_on_space(game: AppView)
    requires
        game.wf(),
    ensures
        game.on_space().wf(),
        !(game.started && game.game_over) ==> {
            &&& game.on_space() == (AppView {
                started: true,
                cannon_lasers: game.on_space().cannon_lasers,
                ..game
            })
            &&& game.cannon_lasers.len() <= game.on_space().cannon_lasers.len()
                <= game.cannon_lasers.len() + 1
        },
        game.started && !game.game_over && !game.playing() ==> game.on_space() == game,
        game.started && game.game_over ==> {
            &&& game.on_space() == game.reset_game()
            &&& !game.on_space().game_over
            &&& game.on_space().score == 0
            &&& game.on_space().level == 0
            &&& game.on_space().lives == DEFAULT_LIVES
            &&& game.on_space().grid == GridView::spec_new(0)
            &&& game.on_space().grid.count() == 40
            &&& game.on_space().count_threshold == 40
            &&& game.on_space().alien_counter_max == ALIEN_COUNTER_DEFAULT
            &&& game.on_space().hiscore == game.hiscore
            &&& game.on_space().can_tick()
        },
{
    GridView::lemma_new(0);
    if game.started && !game.game_over && game.playing() && game.cannon_lasers.len()
        < game.max_cannon_lasers {
        let laser = Laser::spec_new_cannon(game.cannon.left);
        let after = game.on_space();
        assert(laser.is_visible());
        assert(lasers_visible(after.cannon_lasers)) by {
            assert forall|i: int| 0 <= i < after.cannon_lasers.len() implies (
            #[trigger] after.cannon_lasers[i]).is_visible() by {
                if i < game.cannon_lasers.len() {
                    assert(game.cannon_lasers[i].is_visible());
                }
            }
        }
    }
}

/// Pausing a running game and going on gives the game back, and so does
/// showing the help and leaving it.
pub proof fn lemma_toggle_round_trip(game: AppView)
    requires
        game.playing(),
    ensures
        game.on_p().paused && !game.on_p().playing(),
        game.on_p().on_p() == game,
        game.on_h().show_help && !game.on_h().playing(),
        game.on_h().on_h() == game,
{
}

/// While a game is not running, a tick changes nothing, whatever column
/// is handed to it.
pub proof fn lemma_idle_tick(game: AppView, column: int)
    requires
        !game.playing(),
    ensures
        game.ticked(column) == game,
{
}

/// A laser of the invaders that hits the cannon costs a life and sends the
/// cannon back to its start, and ends the game if no life is left.
pub proof fn lemma_cannon_hit(game: AppView, laser: Laser)
    requires
        !game.game_over,
        game.cannon.collides_with_laser(&laser),
    ensures
        game.lives == 0 ==> game.bomb(laser) == (AppView { game_over: true, ..game }),
        game.lives > 0 ==> {
            &&& !game.bomb(laser).game_over
            &&& game.bomb(laser).lives == game.lives - 1
            &&& game.bomb(laser).cannon == game.cannon.spec_reset()
            &&& game.bomb(laser).invader_lasers == game.invader_lasers
        },
{
}

/// While invaders are left in a well-formed game, the formation's origin
/// is within reach of the playfield, so its sideways step always fits:
/// of what a tick needs of the machine's integers, only the room of the
/// score and of the formation's way down can ever be wanting.
pub proof fn lemma_can_tick(game: AppView)
    requires
        game.wf(),
        !game.grid.is_empty(),
        game.score + hit_room(game.cannon_lasers.len()) <= u32::MAX,
        game.grid.bottom - INVADER_MOVE_Y - LASER_HEIGHT - LASER_MOVE >= i32::MIN,
    ensures
        game.can_tick(),
{
    game.grid.lemma_in_field_bounds();
}

/// The sprite of an invader of a well-formed formation lies inside the
/// rectangle of its row, and that inside the rectangle of the formation.
pub proof fn lemma_invader_in_grid(grid: GridView, row: int, column: int)
    requires
        grid.wf(),
        grid.alive(row, column),
    ensures
        grid.rows[row].area().left <= grid.invader(row, column).area().left,
        grid.invader(row, column).area().right <= grid.rows[row].area().right,
        grid.rows[row].area().bottom == grid.invader(row, column).area().bottom,
        grid.rows[row].area().top == grid.invader(row, column).area().top,
        grid.area().left == grid.rows[row].area().left,
        grid.area().right == grid.rows[row].area().right,
        grid.area().bottom <= grid.rows[row].area().bottom,
        grid.rows[row].area().top <= grid.area().top,
{
    grid.lemma_wf_facts();
    assert(grid.rows[row].wf());
    grid.rows[row].lemma_wf_facts();
    assert(grid.rows[row].alive(column));
    Invader::lemma_area_in_cell(grid.invader(row, column));
}

/// A cannon laser that overlaps exactly one invader shoots it: the score
/// grows by the points of its kind, its slot is empty afterwards, every
/// other invader is where it was, the laser is gone, and the mystery ship
/// and the bunkers are untouched.
pub proof fn lemma_single_hit(game: AppView, laser: Laser, row: int, column: int)
    requires
        game.grid.wf(),
        game.grid.alive(row, column),
        game.grid.invader(row, column).area().overlaps(laser.area()),
        forall|r: int, c: int| #[trigger]
            game.grid.alive(r, c) && (r != row || c != column) ==> !game.grid.invader(
                r,
                c,
            ).area().overlaps(laser.area()),
        game.score + hit_room(1) <= u32::MAX,
    ensures
        game.shoot(laser).score == game.score + game.grid.invader(
            row,
            column,
        ).invader_type.score(),
        !game.shoot(laser).grid.alive(row, column),
        game.shoot(laser).grid.count() == game.grid.count() - 1,
        forall|r: int, c: int|
            (r != row || c != column) ==> (#[trigger] game.shoot(laser).grid.alive(r, c))
                == game.grid.alive(r, c),
        game.shoot(laser).cannon_lasers == game.cannon_lasers,
        game.shoot(laser).mystery_ship == game.mystery_ship,
        game.shoot(laser).bunkers == game.bunkers,
{
    let grid = game.grid;
    lemma_invader_in_grid(grid, row, column);
    grid.lemma_first_struck(laser, 0);
    grid.lemma_shot(laser);
    let the_row = grid.rows[row];
    assert(the_row.wf());
    the_row.lemma_first_struck(laser, 0);
    assert(the_row.struck(column, laser));
    let first_column = the_row.first_struck(laser, 0);
    if first_column != column {
        assert(the_row.struck(first_column, laser));
        assert(grid.alive(row, first_column));
    }
    assert(the_row.shot_column(laser) == column);
    assert(grid.row_struck(row, laser));
    let first_row = grid.first_struck(laser, 0);
    if first_row != row {
        assert(grid.row_struck(first_row, laser));
        let other = grid.rows[first_row];
        other.lemma_first_struck(laser, 0);
        let c = other.shot_column(laser);
        assert(other.struck(c, laser));
        assert(grid.alive(first_row, c));
    }
    assert(grid.shot_row(laser) == row);
    the_row.lemma_deleted_wf(column);
    let shot = grid.shot(laser);
    assert(shot.rows[row] == the_row.deleted(column));
    assert forall|r: int, c: int| (r != row || c != column) implies (#[trigger] shot.alive(r, c))
        == grid.alive(r, c) by {
        if r == row && 0 <= c < the_row.invaders.len() {
            assert(the_row.deleted(column).get(c) == the_row.get(c));
        }
    }
}

/// In a collision pass over a game whose only cannon laser overlaps
/// exactly one invader, and whose formation has neither landed nor
/// reached the cannon, the laser shoots that invader and is gone.
pub proof fn lemma_pass_single_hit(game: AppView, laser: Laser, row: int, column: int)
    requires
        game.wf_entities(),
        !game.game_over,
        game.grid.is_visible(),
        !game.grid.collides_with_cannon(game.cannon),
        game.cannon_lasers == seq![laser],
        game.grid.alive(row, column),
        game.grid.invader(row, column).area().overlaps(laser.area()),
        forall|r: int, c: int| #[trigger]
            game.grid.alive(r, c) && (r != row || c != column) ==> !game.grid.invader(
                r,
                c,
            ).area().overlaps(laser.area()),
        game.score + hit_room(1) <= u32::MAX,
    ensures
        game.collided().cannon_lasers.len() == 0,
        game.collided().score == game.score + game.grid.invader(
            row,
            column,
        ).invader_type.score(),
        !game.collided().grid.alive(row, column),
        game.collided().grid.count() == game.grid.count() - 1,
{
    let lasers = game.cannon_lasers;
    assert(lasers.drop_last() =~= Seq::empty());
    let emptied = game.cannon_pass(lasers.drop_last());
    assert(emptied == (AppView { cannon_lasers: Seq::empty(), ..game }));
    lemma_single_hit(emptied, laser, row, column);
    let shot = game.cannon_pass(lasers);
    assert(shot == emptied.shoot(laser));
    shot.lemma_invader_pass(shot.invader_lasers);
}

} // verus!
