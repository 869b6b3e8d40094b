use space_invaders::app::App;
use space_invaders::grid::InvaderGrid;
use space_invaders::{
    Cannon, Color, Direction, Invader, InvaderDirection, InvaderRow, InvaderType, Laser, LaserFrom,
};

fn falling(left: i32, bottom: i32) -> Laser {
    Laser {
        left,
        bottom,
        color: Color::White,
        direction: Direction::Down,
        from: LaserFrom::Invader,
    }
}

#[test]
fn cannon_well_formed_on_its_track_only() {
    let mut cannon = Cannon::new_normal();
    assert!(cannon.is_wf());
    cannon.left = 185;
    assert!(cannon.is_wf());
    cannon.left = 2;
    assert!(!cannon.is_wf());
    cannon.left = 187;
    assert!(!cannon.is_wf());
    cannon.left = -1;
    assert!(!cannon.is_wf());
    cannon.left = 21;
    cannon.bottom = 1;
    assert!(!cannon.is_wf());
}

#[test]
fn row_well_formed() {
    let mut row = InvaderRow::new(InvaderType::Crab, 31, 40);
    assert!(row.is_wf());
    row.delete(4);
    row.move_along(InvaderDirection::Left, 6);
    row.move_down(3);
    assert!(row.is_wf());

    let mut miscounted = row.clone();
    miscounted.count = 8;
    assert!(!miscounted.is_wf());

    let mut resized = row.clone();
    resized.size = 7;
    assert!(!resized.is_wf());

    let mut short = row.clone();
    short.invaders.pop();
    short.count = 6;
    assert!(!short.is_wf());

    let mut strayed = row.clone();
    strayed.invaders[2] = Some(Invader::new(InvaderType::Crab, 25 + 33, 37));
    assert!(!strayed.is_wf());
    strayed.invaders[2] = Some(Invader::new(InvaderType::Crab, 25 + 32, 38));
    assert!(!strayed.is_wf());
    strayed.invaders[2] = Some(Invader::new(InvaderType::Crab, 25 + 32, 37));
    assert!(strayed.is_wf());
}

#[test]
fn grid_well_formed() {
    let mut grid = InvaderGrid::new(3);
    assert!(grid.is_wf());
    assert!(grid.is_in_field());
    for _ in 0..50 {
        grid.move_along();
        assert!(grid.is_wf());
        assert!(grid.is_in_field());
    }

    let mut shifted = grid.clone();
    shifted.rows[3].move_down(1);
    assert!(!shifted.is_wf());

    let mut lost = grid.clone();
    lost.rows.pop();
    assert!(!lost.is_wf());

    let mut strayed = grid.clone();
    strayed.left += 2;
    assert!(!strayed.is_wf());

    let mut off_step = InvaderGrid::new(0);
    off_step.left = 2;
    for row in off_step.rows.iter_mut() {
        row.move_along(InvaderDirection::Right, 1);
    }
    assert!(off_step.is_wf());
    assert!(!off_step.is_in_field());

    let mut beyond = InvaderGrid::new(0);
    beyond.left = 79;
    for row in beyond.rows.iter_mut() {
        row.move_along(InvaderDirection::Right, 78);
    }
    assert!(beyond.is_wf());
    assert!(!beyond.is_in_field());
    for row in beyond.rows.iter_mut() {
        row.delete(7);
    }
    assert!(beyond.is_in_field());
}

#[test]
fn game_well_formed() {
    let mut app = App::new(2000, 2, 2, 0);
    assert!(app.is_wf());
    app.on_space();
    app.on_space();
    assert!(app.is_wf());

    app.cannon_lasers.push(Laser::new_cannon(1));
    app.cannon_lasers.push(Laser::new_cannon(1));
    assert!(!app.is_wf());
    app.cannon_lasers.truncate(1);
    assert!(app.is_wf());

    app.cannon_lasers[0].bottom = 131;
    assert!(!app.is_wf());
    app.cannon_lasers[0].bottom = 130;
    assert!(app.is_wf());

    app.invader_lasers.push(falling(50, -5));
    assert!(!app.is_wf());
    app.game_over = true;
    assert!(app.is_wf());
    app.invader_lasers.push(falling(50, 20));
    assert!(!app.is_wf());
    app.invader_lasers.swap(0, 1);
    assert!(app.is_wf());
    app.game_over = false;
    assert!(!app.is_wf());
    app.invader_lasers.pop();
    assert!(app.is_wf());

    app.lives = 4;
    assert!(!app.is_wf());
    app.lives = 3;
    app.level = 7;
    assert!(!app.is_wf());
    app.level = 6;
    app.alien_counter_max = 6;
    assert!(!app.is_wf());
    app.alien_counter_max = 0;
    app.cannon.left = 4;
    assert!(!app.is_wf());
    app.cannon.left = 5;
    assert!(app.is_wf());
    app.grid.rows[1].count = 3;
    assert!(!app.is_wf());
}

#[test]
fn tick_needs_room() {
    let mut app = App::new(2000, 1, 3, 0);
    assert!(app.can_tick());
    app.grid.bottom = i32::MIN + 9;
    assert!(app.can_tick());
    app.grid.bottom = i32::MIN + 8;
    assert!(!app.can_tick());
    app.grid.bottom = 72;
    app.grid.left = i32::MAX - 1;
    assert!(!app.can_tick());
    app.grid.left = i32::MAX - 2;
    assert!(app.can_tick());
    app.grid.left = i32::MIN + 1;
    assert!(!app.can_tick());
    app.grid.left = 1;
    app.score = u32::MAX;
    assert!(app.can_tick());
}
