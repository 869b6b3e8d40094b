use space_invaders::app::App;
use space_invaders::input::{command_for, Command, Key, Modifiers};
use space_invaders::layout::center;
use space_invaders::{Cannon, Color, Direction, InvaderDirection, InvaderType, Laser, LaserFrom};

fn new_game() -> App {
    App::new(2000, 1, 3, 0)
}

fn bomb_at(left: i32, bottom: i32) -> Laser {
    Laser {
        left,
        bottom,
        color: Color::Cyan,
        direction: Direction::Down,
        from: LaserFrom::Invader,
    }
}

fn snapshot(app: &App) -> String {
    format!("{:?}", app)
}

fn clear_grid(app: &mut App) {
    for row in app.grid.rows.iter_mut() {
        for column in 0..8 {
            row.delete(column);
        }
    }
}

#[test]
fn construct_start_and_idle_ticks() {
    let mut app = new_game();
    assert_eq!(app.grid.count(), 40);
    assert_eq!(app.lives, 3);
    assert_eq!(app.score, 0);
    assert!(!app.started);
    assert!(!app.playing());
    assert!(app.can_tick());

    app.on_space();
    assert!(app.started);
    assert!(app.playing());

    for _ in 0..200 {
        app.on_tick();
    }
    assert_eq!(app.score, 0);
    assert_eq!(app.grid.count(), 40);
    assert_eq!(app.cannon_lasers.len(), 0);
}

#[test]
fn new_game_settings() {
    let app = App::new(321, 2, 5, 3);
    assert_eq!(app.mystery_ship_interval, 321);
    assert_eq!(app.mystery_ship_counter, 321);
    assert_eq!(app.max_cannon_lasers, 2);
    assert_eq!(app.max_invader_lasers, 5);
    assert_eq!(app.level, 3);
    assert_eq!(app.grid.bottom, 57);
    assert_eq!(app.alien_counter, 5);
    assert_eq!(app.alien_counter_max, 5);
    assert_eq!(app.invader_laser_counter, 16);
    assert_eq!(app.count_threshold, 40);
    assert_eq!(app.hiscore, 0);
    assert!(!app.game_over);
    assert!(!app.paused);
    assert!(!app.show_help);
    assert!(!app.should_quit);
    assert_eq!(app.cannon, Cannon::new_normal());
    assert_eq!(app.mystery_ship.left, 201);
    assert_eq!(app.bunkers.bunkers.len(), 4);
    assert_eq!(app.invader_lasers.len(), 0);
}

#[test]
fn start_level_is_clamped() {
    let app = App::new(2000, 1, 3, 200);
    assert_eq!(app.level, 6);
    assert_eq!(app.grid.bottom, 42);
    let app = App::new(2000, 1, 3, 7);
    assert_eq!(app.level, 6);
    let app = App::new(2000, 1, 3, 6);
    assert_eq!(app.level, 6);
}

#[test]
fn fire_and_clear_one_invader() {
    let mut app = new_game();
    app.on_space();
    // under the rightmost column, right of the third bunker
    for _ in 0..63 {
        app.on_right();
    }
    assert_eq!(app.cannon.left, 127);
    app.on_space();
    assert_eq!(app.cannon_lasers.len(), 1);
    assert_eq!(app.cannon_lasers[0], Laser::new_cannon(127));
    assert_eq!(app.cannon_lasers[0].left, 133);

    let mut ticks = 0;
    while app.cannon_lasers.len() == 1 {
        let before = app.cannon_lasers[0];
        app.on_tick_with(8);
        ticks += 1;
        if app.cannon_lasers.len() == 1 {
            assert_eq!(app.cannon_lasers[0].bottom, before.bottom + 2);
            assert_eq!(app.score, 0);
        }
        assert!(ticks < 100);
    }
    assert_eq!(app.score, 10);
    assert_eq!(app.grid.count(), 39);
    assert_eq!(app.grid.rows[0].count, 7);
    assert_eq!(app.grid.rows[0].get(7), None);
    assert_eq!(app.cannon_lasers.len(), 0);
    for bunker in app.bunkers.bunkers.iter() {
        assert_eq!(bunker.data.len(), 198);
    }
}

#[test]
fn laser_cap_makes_space_a_no_op() {
    let mut app = App::new(2000, 2, 3, 0);
    app.on_space();
    app.on_space();
    assert_eq!(app.cannon_lasers.len(), 1);
    app.on_space();
    assert_eq!(app.cannon_lasers.len(), 2);
    let before = snapshot(&app);
    app.on_space();
    assert_eq!(app.cannon_lasers.len(), 2);
    assert_eq!(snapshot(&app), before);
}

#[test]
fn edge_bounce_in_the_game() {
    let mut app = new_game();
    app.on_space();
    let mut ticks = 0;
    while app.grid.rows[0].get(7).unwrap().left + 12 < 200 {
        app.on_tick_with(0);
        ticks += 1;
        assert!(ticks < 1000);
    }
    assert_eq!(app.grid.direction, InvaderDirection::Right);
    assert_eq!(app.grid.bottom, 72);
    assert_eq!(app.grid.left, 77);
    // the formation rests five ticks, then takes its step
    let mut rest = 0;
    while app.grid.direction == InvaderDirection::Right {
        assert_eq!(app.grid.bottom, 72);
        app.on_tick_with(0);
        rest += 1;
        assert!(rest <= 6);
    }
    assert_eq!(app.grid.direction, InvaderDirection::Left);
    assert_eq!(app.grid.bottom, 72 - 5);
    assert_eq!(app.grid.left, 77);
    for (r, row) in app.grid.rows.iter().enumerate() {
        for column in 0..8 {
            let invader = row.get(column).unwrap();
            assert_eq!(invader.bottom, 67 + 10 * r as i32);
            assert_eq!(invader.left, 77 + 16 * column as i32);
        }
    }
    assert!(!app.game_over);
}

#[test]
fn formation_moves_every_sixth_tick() {
    let mut app = new_game();
    app.on_space();
    for _ in 0..5 {
        app.on_tick_with(0);
        assert_eq!(app.grid.left, 1);
    }
    assert_eq!(app.alien_counter, 0);
    app.on_tick_with(0);
    assert_eq!(app.grid.left, 3);
    assert_eq!(app.alien_counter, 5);
    assert_eq!(app.invader_laser_counter, 15);
    for _ in 0..5 {
        app.on_tick_with(0);
        assert_eq!(app.grid.left, 3);
    }
    app.on_tick_with(0);
    assert_eq!(app.grid.left, 5);
    assert_eq!(app.invader_laser_counter, 14);
}

#[test]
fn invaders_fire_every_sixteenth_move() {
    let mut app = new_game();
    app.on_space();
    for _ in 0..(15 * 6) {
        app.on_tick_with(3);
        assert_eq!(app.invader_lasers.len(), 0);
    }
    assert_eq!(app.invader_laser_counter, 1);
    for _ in 0..5 {
        assert!(!app.fires());
        app.on_tick_with(3);
    }
    assert!(app.fires());
    app.on_tick_with(3);
    assert_eq!(app.grid.left, 33);
    assert_eq!(app.invader_laser_counter, 16);
    assert_eq!(app.invader_lasers.len(), 1);
    // fired from column three of the bottom row after the move, then moved
    // on in the same tick
    let fired = Laser::new_invader(33 + 48, 72, InvaderType::Octopus);
    assert_eq!(app.invader_lasers[0].left, fired.left);
    assert_eq!(app.invader_lasers[0].bottom, fired.bottom - 2);
    assert_eq!(app.invader_lasers[0].direction, Direction::Down);
    assert_eq!(app.invader_lasers[0].from, LaserFrom::Invader);
}

#[test]
fn invaders_do_not_fire_at_their_cap() {
    let mut app = App::new(2000, 1, 0, 0);
    app.on_space();
    for _ in 0..(16 * 6) {
        assert!(!app.fires());
        app.on_tick();
    }
    assert_eq!(app.invader_lasers.len(), 0);
    assert_eq!(app.invader_laser_counter, 0);
    assert_eq!(app.grid.left, 33);
}

#[test]
fn mystery_ship_spawn() {
    let mut app = App::new(10, 1, 3, 0);
    app.on_space();
    for _ in 0..10 {
        app.on_tick_with(0);
        assert_eq!(app.mystery_ship.left, 201);
    }
    assert_eq!(app.mystery_ship_counter, 0);
    app.on_tick_with(0);
    assert!(app.mystery_ship.is_visible());
    assert_eq!(app.mystery_ship.left, 199);
    app.on_tick_with(0);
    assert_eq!(app.mystery_ship.left, 197);
    app.on_tick_with(0);
    assert_eq!(app.mystery_ship.left, 195);
}

#[test]
fn mystery_ship_comes_back_after_leaving() {
    let mut app = App::new(10, 1, 0, 0);
    app.on_space();
    app.mystery_ship_counter = 0;
    app.mystery_ship.left = -15;
    app.on_tick_with(0);
    assert_eq!(app.mystery_ship.left, -17);
    assert!(!app.mystery_ship.is_visible());
    app.on_tick_with(0);
    assert_eq!(app.mystery_ship.left, 201);
    assert_eq!(app.mystery_ship_counter, 10);
    app.on_tick_with(0);
    assert_eq!(app.mystery_ship.left, 201);
    assert_eq!(app.mystery_ship_counter, 9);
}

#[test]
fn mystery_ship_hit_scores_and_hides() {
    let mut app = new_game();
    app.on_space();
    app.mystery_ship.left = 101;
    app.mystery_ship_counter = 0;
    app.cannon_lasers.push(Laser {
        left: 106,
        bottom: 122,
        color: Color::Green,
        direction: Direction::Up,
        from: LaserFrom::Cannon,
    });
    // the ship flies to 99, the laser climbs to 124 and strikes it seven
    // pixels from its left edge
    app.on_tick_with(0);
    assert_eq!(app.score, 200);
    assert_eq!(app.cannon_lasers.len(), 0);
    assert!(!app.mystery_ship.is_visible());
    assert_eq!(app.mystery_ship.left, -17);
    assert_eq!(app.grid.count(), 40);
}

#[test]
fn lives_and_game_over() {
    let mut app = new_game();
    app.on_space();
    for _ in 0..10 {
        app.on_right();
    }
    assert_eq!(app.cannon.left, 21);
    app.lives = 1;
    app.invader_lasers.push(bomb_at(28, 4));
    app.on_tick_with(0);
    assert_eq!(app.lives, 0);
    assert_eq!(app.cannon, Cannon::new_normal());
    assert_eq!(app.invader_lasers.len(), 0);
    assert!(!app.game_over);
    assert!(app.playing());

    app.invader_lasers.push(bomb_at(8, 4));
    app.on_tick_with(0);
    assert!(app.game_over);
    assert!(!app.playing());
    assert_eq!(app.lives, 0);
    // the pass ended at once: the laser is still there
    assert_eq!(app.invader_lasers.len(), 1);
    assert_eq!(app.invader_lasers[0], bomb_at(8, 4));
}

#[test]
fn tick_after_game_over_changes_nothing() {
    let mut app = new_game();
    app.on_space();
    app.lives = 0;
    app.invader_lasers.push(bomb_at(8, 4));
    app.on_tick_with(0);
    assert!(app.game_over);
    let before = snapshot(&app);
    for column in 0..8 {
        app.on_tick_with(column);
        app.on_tick();
    }
    app.on_left();
    app.on_right();
    assert_eq!(snapshot(&app), before);
}

#[test]
fn restart_after_game_over() {
    let mut app = App::new(50, 1, 3, 4);
    app.on_space();
    app.score = 120;
    app.hiscore = 500;
    app.lives = 0;
    app.cannon_lasers.push(Laser::new_cannon(1));
    app.invader_lasers.push(bomb_at(8, 4));
    app.on_tick_with(0);
    assert!(app.game_over);
    assert_eq!(app.level, 4);

    app.on_space();
    assert!(!app.game_over);
    assert!(app.playing());
    assert_eq!(app.score, 0);
    assert_eq!(app.hiscore, 500);
    assert_eq!(app.level, 0);
    assert_eq!(app.lives, 3);
    assert_eq!(app.cannon_lasers.len(), 0);
    assert_eq!(app.invader_lasers.len(), 0);
    assert_eq!(app.grid.count(), 40);
    assert_eq!(app.grid.bottom, 72);
    assert_eq!(app.count_threshold, 40);
    assert_eq!(app.alien_counter_max, 5);
    assert_eq!(app.cannon, Cannon::new_normal());
    assert!(!app.mystery_ship.is_visible());
    assert_eq!(app.mystery_ship_counter, 50);
    for bunker in app.bunkers.bunkers.iter() {
        assert_eq!(bunker.data.len(), 198);
    }
    assert!(app.can_tick());
}

#[test]
fn level_clear() {
    let mut app = new_game();
    app.on_space();
    app.alien_counter_max = 2;
    app.count_threshold = 5;
    clear_grid(&mut app);
    assert_eq!(app.grid.count(), 0);
    app.on_tick_with(0);
    assert_eq!(app.level, 1);
    assert_eq!(app.grid.count(), 40);
    assert_eq!(app.grid.bottom, 67);
    assert_eq!(app.grid.left, 1);
    assert_eq!(app.count_threshold, 40);
    assert_eq!(app.alien_counter_max, 5);
    assert_eq!(app.score, 0);
}

#[test]
fn level_wraps_after_the_last() {
    let mut app = App::new(2000, 1, 3, 6);
    app.on_space();
    clear_grid(&mut app);
    app.on_tick_with(0);
    assert_eq!(app.level, 0);
    assert_eq!(app.grid.count(), 40);
    assert_eq!(app.grid.bottom, 72);
}

#[test]
fn formation_speeds_up_as_it_thins() {
    let mut app = new_game();
    app.on_space();
    for row in app.grid.rows.iter_mut().take(2) {
        for column in 0..8 {
            row.delete(column);
        }
    }
    for column in 0..3 {
        app.grid.rows[2].delete(column);
    }
    assert_eq!(app.grid.count(), 21);
    app.on_tick_with(0);
    assert_eq!(app.count_threshold, 40);
    assert_eq!(app.alien_counter_max, 5);
    app.grid.rows[2].delete(3);
    assert_eq!(app.grid.count(), 20);
    app.on_tick_with(0);
    assert_eq!(app.count_threshold, 20);
    assert_eq!(app.alien_counter_max, 4);
    app.on_tick_with(0);
    assert_eq!(app.count_threshold, 20);
    assert_eq!(app.alien_counter_max, 4);
    for column in 4..8 {
        app.grid.rows[2].delete(column);
    }
    for column in 0..6 {
        app.grid.rows[3].delete(column);
    }
    assert_eq!(app.grid.count(), 10);
    app.on_tick_with(0);
    assert_eq!(app.count_threshold, 10);
    assert_eq!(app.alien_counter_max, 3);
}

#[test]
fn pace_does_not_drop_below_zero() {
    let mut app = new_game();
    app.on_space();
    app.alien_counter_max = 0;
    app.alien_counter = 0;
    app.count_threshold = 80;
    app.on_tick_with(0);
    assert_eq!(app.alien_counter_max, 0);
    assert_eq!(app.count_threshold, 40);
    assert_eq!(app.grid.left, 3);
    app.on_tick_with(0);
    assert_eq!(app.grid.left, 5);
}

#[test]
fn pause_round_trip() {
    let mut app = new_game();
    app.on_space();
    for _ in 0..17 {
        app.on_tick_with(0);
    }
    let before = snapshot(&app);
    app.on_p();
    assert!(app.paused);
    assert!(!app.playing());
    assert_ne!(snapshot(&app), before);
    app.on_p();
    assert!(!app.paused);
    assert!(app.playing());
    assert_eq!(snapshot(&app), before);
}

#[test]
fn help_round_trip() {
    let mut app = new_game();
    app.on_space();
    let before = snapshot(&app);
    app.on_h();
    assert!(app.show_help);
    assert!(!app.playing());
    app.on_h();
    assert!(!app.show_help);
    assert_eq!(snapshot(&app), before);
}

#[test]
fn toggles_are_ignored_unless_running() {
    let mut app = new_game();
    let before = snapshot(&app);
    app.on_p();
    app.on_h();
    assert_eq!(snapshot(&app), before);

    app.on_space();
    app.on_p();
    let paused = snapshot(&app);
    app.on_h();
    assert_eq!(snapshot(&app), paused);
    app.on_left();
    app.on_right();
    app.on_space();
    assert_eq!(snapshot(&app), paused);
}

#[test]
fn tick_is_a_no_op_unless_running() {
    let mut app = new_game();
    let before = snapshot(&app);
    app.on_tick();
    app.on_tick_with(4);
    assert_eq!(snapshot(&app), before);

    app.on_space();
    app.on_tick_with(0);
    app.on_p();
    let paused = snapshot(&app);
    for _ in 0..20 {
        app.on_tick();
    }
    assert_eq!(snapshot(&app), paused);
    app.on_p();
    app.on_h();
    let help = snapshot(&app);
    for _ in 0..20 {
        app.on_tick_with(1);
    }
    assert_eq!(snapshot(&app), help);
}

#[test]
fn cannon_commands_need_a_running_game() {
    let mut app = new_game();
    app.on_right();
    assert_eq!(app.cannon.left, 1);
    app.on_space();
    app.on_right();
    assert_eq!(app.cannon.left, 3);
    app.on_right();
    app.on_left();
    assert_eq!(app.cannon.left, 3);
    app.on_left();
    app.on_left();
    assert_eq!(app.cannon.left, 1);
}

#[test]
fn quit_commands() {
    let mut app = new_game();
    app.on_q();
    assert!(app.should_quit);
    let mut app = new_game();
    app.on_esc();
    assert!(app.should_quit);
    let mut app = new_game();
    app.on_ctrl_c();
    assert!(app.should_quit);
    assert!(!app.started);
}

#[test]
fn lasers_leave_the_field() {
    let mut app = new_game();
    app.on_space();
    app.on_space();
    assert_eq!(app.cannon_lasers.len(), 1);
    app.invader_lasers.push(bomb_at(199, 3));
    app.on_tick_with(0);
    assert_eq!(app.invader_lasers[0].bottom, 1);
    app.on_tick_with(0);
    assert_eq!(app.invader_lasers.len(), 0);
    // the cannon's laser at the left wall climbs past the formation's side
    let mut ticks = 2;
    while app.cannon_lasers.len() == 1 {
        assert!(app.cannon_lasers[0].bottom >= 0);
        assert!(app.cannon_lasers[0].bottom <= 130);
        app.on_tick_with(0);
        ticks += 1;
        assert!(ticks < 200);
    }
    assert!(app.score == 0 || app.score == 10);
}

#[test]
fn invader_laser_burns_a_bunker() {
    let mut app = new_game();
    app.on_space();
    app.invader_lasers.push(bomb_at(25, 28));
    app.on_tick_with(0);
    // after moving on the laser reaches into the top of the first bunker
    assert_eq!(app.invader_lasers.len(), 1);
    assert_eq!(app.invader_lasers[0].bottom, 26);
    app.on_tick_with(0);
    assert_eq!(app.invader_lasers.len(), 0);
    assert_eq!(app.bunkers.bunkers[0].data.len(), 198 - 4);
    assert_eq!(app.lives, 3);
}

#[test]
fn score_headroom() {
    let mut app = App::new(2000, 3, 3, 0);
    app.on_space();
    app.score = u32::MAX - 200;
    assert!(app.can_tick());
    app.on_space();
    assert!(app.can_tick());
    app.on_space();
    assert!(!app.can_tick());
    app.score = u32::MAX - 400;
    assert!(app.can_tick());
}

#[test]
fn key_bindings() {
    assert_eq!(command_for(Modifiers::Plain, Key::Left), Some(Command::Left));
    assert_eq!(command_for(Modifiers::Plain, Key::Right), Some(Command::Right));
    assert_eq!(command_for(Modifiers::Plain, Key::Char(' ')), Some(Command::Space));
    assert_eq!(command_for(Modifiers::Plain, Key::Char('h')), Some(Command::H));
    assert_eq!(command_for(Modifiers::Plain, Key::Char('p')), Some(Command::P));
    assert_eq!(command_for(Modifiers::Plain, Key::Char('q')), Some(Command::Q));
    assert_eq!(command_for(Modifiers::Plain, Key::Esc), Some(Command::Esc));
    assert_eq!(command_for(Modifiers::Control, Key::Char('c')), Some(Command::CtrlC));
    assert_eq!(command_for(Modifiers::Plain, Key::Char('c')), None);
    assert_eq!(command_for(Modifiers::Plain, Key::Char('x')), None);
    assert_eq!(command_for(Modifiers::Plain, Key::Other), None);
    assert_eq!(command_for(Modifiers::Control, Key::Char('q')), None);
    assert_eq!(command_for(Modifiers::Control, Key::Left), None);
    assert_eq!(command_for(Modifiers::Mixed, Key::Char('q')), None);
    assert_eq!(command_for(Modifiers::Mixed, Key::Char('c')), None);
}

#[test]
fn commands_reach_the_game() {
    let mut app = new_game();
    app.on_command(Command::Space);
    assert!(app.started);
    app.on_command(Command::Right);
    assert_eq!(app.cannon.left, 3);
    app.on_command(Command::Left);
    assert_eq!(app.cannon.left, 1);
    app.on_command(Command::Space);
    assert_eq!(app.cannon_lasers.len(), 1);
    app.on_command(Command::P);
    assert!(app.paused);
    app.on_command(Command::P);
    app.on_command(Command::H);
    assert!(app.show_help);
    app.on_command(Command::H);
    assert!(!app.should_quit);
    app.on_command(Command::Q);
    assert!(app.should_quit);
    let mut app = new_game();
    app.on_command(Command::Esc);
    assert!(app.should_quit);
    let mut app = new_game();
    app.on_command(Command::CtrlC);
    assert!(app.should_quit);
}

#[test]
fn centring() {
    assert_eq!(center(120, 102), Some(9));
    assert_eq!(center(105, 102), Some(1));
    assert_eq!(center(104, 102), Some(1));
    assert_eq!(center(103, 102), None);
    assert_eq!(center(102, 102), None);
    assert_eq!(center(80, 102), None);
    assert_eq!(center(0, 0), None);
    assert_eq!(center(u16::MAX, 1), Some(32767));
}
