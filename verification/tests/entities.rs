use space_invaders::points::{
    ALIEN_WIDTH, CANNON_LASER_INITIAL_X_OFFSET, CANNON_MOVE, CANNON_WIDTH, GAME_HEIGHT, GAME_WIDTH,
    GRID_INITIAL_X, GRID_INITIAL_Y, INVADER_MOVE_Y, LASER_HEIGHT, LASER_MOVE, MYSTERY_SHIP_MOVE,
    MYSTERY_SHIP_WIDTH, ROW_HEIGHT,
};
use space_invaders::{
    Area, Cannon, Color, Direction, Invader, InvaderAnimation, InvaderDirection, InvaderType,
    Laser, LaserFrom, MysteryShip,
};

fn laser_at(left: i32, bottom: i32) -> Laser {
    Laser {
        left,
        bottom,
        color: Color::Green,
        direction: Direction::Up,
        from: LaserFrom::Cannon,
    }
}

#[test]
fn derived_constants() {
    assert_eq!(ALIEN_WIDTH, 12);
    assert_eq!(ROW_HEIGHT, 10);
    assert_eq!(INVADER_MOVE_Y, 5);
    assert_eq!(GRID_INITIAL_Y, 72);
    assert_eq!(CANNON_LASER_INITIAL_X_OFFSET, 6);
}

#[test]
fn cannon_laser_starts_at_the_muzzle() {
    let laser = Laser::new_cannon(21);
    assert_eq!(laser.left, 21 + 15 / 2 - 1);
    assert_eq!(laser.left, 27);
    assert_eq!(laser.bottom, 8);
    assert_eq!(laser.direction, Direction::Up);
    assert_eq!(laser.from, LaserFrom::Cannon);
    assert_eq!(laser.color, Color::Green);
}

#[test]
fn invader_laser_starts_below_the_invader() {
    let laser = Laser::new_invader(33, 72, InvaderType::Squid);
    assert_eq!(laser.left, 39);
    assert_eq!(laser.bottom, 70);
    assert_eq!(laser.direction, Direction::Down);
    assert_eq!(laser.from, LaserFrom::Invader);
    assert_eq!(laser.color, Color::Yellow);
    assert_eq!(Laser::new_invader(1, 10, InvaderType::Crab).color, Color::White);
    assert_eq!(Laser::new_invader(1, 10, InvaderType::Octopus).color, Color::Cyan);
}

#[test]
fn laser_moves_along_its_direction() {
    let mut up = Laser::new_cannon(1);
    up.on_tick();
    assert_eq!(up.bottom, 8 + LASER_MOVE);
    assert_eq!(up.left, 7);
    up.on_tick();
    assert_eq!(up.bottom, 12);

    let mut down = Laser::new_invader(1, 72, InvaderType::Octopus);
    down.on_tick();
    assert_eq!(down.bottom, 68);
    assert_eq!(down.left, 7);
}

#[test]
fn laser_is_visible_while_fully_inside() {
    assert!(laser_at(5, 0).is_visible());
    assert!(!laser_at(5, -1).is_visible());
    assert!(laser_at(5, GAME_HEIGHT - LASER_HEIGHT).is_visible());
    assert!(!laser_at(5, GAME_HEIGHT - LASER_HEIGHT + 1).is_visible());
    assert!(laser_at(5, 64).is_visible());
}

#[test]
fn laser_area_and_burn_area() {
    let laser = laser_at(10, 20);
    assert_eq!(laser.area(), Area::new(10, 20, 11, 22));
    assert_eq!(laser.bunker_collision_area(), Area::new(9, 19, 12, 23));
}

#[test]
fn cannon_starts_at_the_left() {
    let cannon = Cannon::new_normal();
    assert_eq!(cannon.left, 1);
    assert_eq!(cannon.bottom, 0);
    assert_eq!(cannon.color, Color::Green);
    assert_eq!(cannon.area(), Area::new(1, 0, 16, 7));
}

#[test]
fn cannon_at_left_wall_ignores_move_left() {
    let mut cannon = Cannon::new_normal();
    assert_eq!(cannon.left, 1);
    cannon.move_left();
    assert_eq!(cannon.left, 1);
    cannon.move_left();
    assert_eq!(cannon.left, 1);
}

#[test]
fn cannon_at_right_wall_ignores_move_right() {
    let mut cannon = Cannon::new_normal();
    for _ in 0..200 {
        cannon.move_right();
    }
    assert_eq!(cannon.left, GAME_WIDTH - CANNON_WIDTH);
    cannon.move_right();
    assert_eq!(cannon.left, 185);
}

#[test]
fn cannon_moves_by_one_step() {
    let mut cannon = Cannon::new_normal();
    cannon.move_right();
    assert_eq!(cannon.left, 1 + CANNON_MOVE);
    cannon.move_right();
    assert_eq!(cannon.left, 5);
    cannon.move_left();
    assert_eq!(cannon.left, 3);
    assert_eq!(cannon.bottom, 0);
}

#[test]
fn cannon_reset_goes_back_to_the_start() {
    let mut cannon = Cannon::new_normal();
    for _ in 0..10 {
        cannon.move_right();
    }
    assert_eq!(cannon.left, 21);
    cannon.reset();
    assert_eq!(cannon, Cannon::new_normal());
}

#[test]
fn cannon_lives_are_spaced() {
    assert_eq!(Cannon::new_life(1).left, 1);
    assert_eq!(Cannon::new_life(2).left, 20);
    assert_eq!(Cannon::new_life(3).left, 39);
    assert_eq!(Cannon::new_life(3).bottom, 0);
}

#[test]
fn cannon_collides_with_overlapping_laser() {
    let cannon = Cannon::new_normal();
    assert!(cannon.collides_with_laser(&laser_at(8, 4)));
    assert!(cannon.collides_with_laser(&laser_at(15, 6)));
    assert!(!cannon.collides_with_laser(&laser_at(16, 4)));
    assert!(!cannon.collides_with_laser(&laser_at(8, 7)));
    assert!(!cannon.collides_with_laser(&laser_at(0, 4)));
}

#[test]
fn mystery_ship_starts_right_of_the_field() {
    let ship = MysteryShip::new();
    assert_eq!(ship.left, GAME_WIDTH + 1);
    assert_eq!(ship.bottom, 124);
    assert!(ship.is_visible());
    assert_eq!(ship.area(), Area::new(201, 124, 217, 132));
}

#[test]
fn mystery_ship_hide_and_reset() {
    let mut ship = MysteryShip::new();
    ship.hide_ship();
    assert!(!ship.is_visible());
    assert_eq!(ship.left, -MYSTERY_SHIP_WIDTH - 1);
    ship.reset();
    assert!(ship.is_visible());
    assert_eq!(ship.left, 201);
    assert_eq!(ship.bottom, 124);
}

#[test]
fn mystery_ship_flies_while_visible() {
    let mut ship = MysteryShip::new();
    ship.on_tick();
    assert_eq!(ship.left, 201 - MYSTERY_SHIP_MOVE);
    ship.on_tick();
    assert_eq!(ship.left, 197);
    ship.hide_ship();
    ship.on_tick();
    assert_eq!(ship.left, -17);
}

#[test]
fn mystery_ship_is_visible_until_it_has_left() {
    let mut ship = MysteryShip::new();
    ship.left = -15;
    assert!(ship.is_visible());
    ship.on_tick();
    assert_eq!(ship.left, -17);
    assert!(!ship.is_visible());
    ship.left = -16;
    assert!(!ship.is_visible());
}

#[test]
fn mystery_ship_scores_by_offset() {
    let mut ship = MysteryShip::new();
    ship.left = 100;
    assert_eq!(ship.collides_with(&laser_at(107, 125)), Some(200));
    assert_eq!(ship.collides_with(&laser_at(100, 125)), Some(50));
    let expected = [50, 50, 100, 100, 150, 150, 200, 200, 200, 200, 150, 150, 100, 100, 50, 50];
    for offset in 0..16 {
        assert_eq!(
            ship.collides_with(&laser_at(100 + offset, 126)),
            Some(expected[offset as usize])
        );
    }
    assert_eq!(ship.left, 100);
}

#[test]
fn mystery_ship_missed() {
    let mut ship = MysteryShip::new();
    ship.left = 100;
    assert_eq!(ship.collides_with(&laser_at(99, 125)), None);
    assert_eq!(ship.collides_with(&laser_at(116, 125)), None);
    assert_eq!(ship.collides_with(&laser_at(105, 122)), None);
    assert_eq!(ship.collides_with(&laser_at(105, 123)), Some(150));
}

#[test]
fn invader_kinds() {
    assert_eq!(InvaderType::Octopus.score(), 10);
    assert_eq!(InvaderType::Crab.score(), 20);
    assert_eq!(InvaderType::Squid.score(), 30);
    assert_eq!(InvaderType::Octopus.width(), 12);
    assert_eq!(InvaderType::Crab.width(), 11);
    assert_eq!(InvaderType::Squid.width(), 8);
    assert_eq!(InvaderType::Octopus.color(), Color::Cyan);
    assert_eq!(InvaderType::Crab.color(), Color::White);
    assert_eq!(InvaderType::Squid.color(), Color::Yellow);
}

#[test]
fn switches_and_defaults() {
    assert_eq!(InvaderAnimation::Original.switch(), InvaderAnimation::Alternate);
    assert_eq!(InvaderAnimation::Alternate.switch(), InvaderAnimation::Original);
    assert_eq!(InvaderDirection::Left.switch(), InvaderDirection::Right);
    assert_eq!(InvaderDirection::Right.switch(), InvaderDirection::Left);
    assert_eq!(InvaderAnimation::default(), InvaderAnimation::Original);
    assert_eq!(InvaderDirection::default(), InvaderDirection::Right);
}

#[test]
fn invader_on_edge_at_the_walls() {
    let at_left = Invader::new(InvaderType::Crab, GRID_INITIAL_X, 50);
    assert!(at_left.on_edge(InvaderDirection::Left));
    assert!(!at_left.on_edge(InvaderDirection::Right));
    let near_left = Invader::new(InvaderType::Crab, GRID_INITIAL_X + 1, 50);
    assert!(!near_left.on_edge(InvaderDirection::Left));
    let at_right = Invader::new(InvaderType::Crab, GAME_WIDTH - ALIEN_WIDTH, 50);
    assert!(at_right.on_edge(InvaderDirection::Right));
    assert!(!at_right.on_edge(InvaderDirection::Left));
    let near_right = Invader::new(InvaderType::Crab, 187, 50);
    assert!(!near_right.on_edge(InvaderDirection::Right));
}

#[test]
fn invader_moves_and_toggles_its_frame() {
    let mut invader = Invader::new(InvaderType::Squid, 17, 72);
    assert_eq!(invader.animation, InvaderAnimation::Original);
    invader.move_along(InvaderDirection::Right, 2);
    assert_eq!(invader.left, 19);
    assert_eq!(invader.bottom, 72);
    assert_eq!(invader.animation, InvaderAnimation::Alternate);
    invader.move_along(InvaderDirection::Left, 4);
    assert_eq!(invader.left, 15);
    assert_eq!(invader.animation, InvaderAnimation::Original);
    invader.move_down(5);
    assert_eq!(invader.bottom, 67);
    assert_eq!(invader.left, 15);
    assert_eq!(invader.animation, InvaderAnimation::Alternate);
    assert_eq!(invader.invader_type, InvaderType::Squid);
}

#[test]
fn invader_area_is_centred_in_its_cell() {
    let octopus = Invader::new(InvaderType::Octopus, 10, 20);
    assert_eq!(octopus.draw_x_offset(), 0);
    assert_eq!(octopus.area(), Area::new(10, 20, 22, 28));
    let crab = Invader::new(InvaderType::Crab, 10, 20);
    assert_eq!(crab.draw_x_offset(), 0);
    assert_eq!(crab.area(), Area::new(10, 20, 21, 28));
    let squid = Invader::new(InvaderType::Squid, 10, 20);
    assert_eq!(squid.draw_x_offset(), 2);
    assert_eq!(squid.width(), 8);
    assert_eq!(squid.area(), Area::new(12, 20, 20, 28));
}

#[test]
fn invader_collisions() {
    let squid = Invader::new(InvaderType::Squid, 10, 20);
    assert_eq!(squid.collides_with_laser(&laser_at(12, 19)), Some(30));
    assert_eq!(squid.collides_with_laser(&laser_at(11, 19)), None);
    assert_eq!(squid.collides_with_laser(&laser_at(19, 27)), Some(30));
    assert_eq!(squid.collides_with_laser(&laser_at(20, 27)), None);
    assert_eq!(squid.collides_with_laser(&laser_at(15, 28)), None);
    let low = Invader::new(InvaderType::Octopus, 10, 5);
    let cannon = Cannon::new_normal();
    assert!(low.collides_with_cannon(&cannon));
    assert!(!squid.collides_with_cannon(&cannon));
    let aside = Invader::new(InvaderType::Octopus, 16, 5);
    assert!(!aside.collides_with_cannon(&cannon));
}
