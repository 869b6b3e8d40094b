use space_invaders::app::App;

fn next(seed: &mut u64) -> u64 {
    *seed = seed
        .wrapping_mul(6364136223846793005)
        .wrapping_add(1442695040888963407);
    *seed >> 33
}

fn lasers_in_field(app: &App) {
    for laser in app.cannon_lasers.iter() {
        assert!(0 <= laser.bottom && laser.bottom <= 130);
    }
    let newest = app.invader_lasers.len().saturating_sub(1);
    for (i, laser) in app.invader_lasers.iter().enumerate() {
        if !(app.game_over && i == newest) {
            assert!(0 <= laser.bottom && laser.bottom <= 130);
        }
    }
}

fn play(seed: u64, steps: usize, max_cannon_lasers: u8, max_invader_lasers: u8, level: u8) -> App {
    let mut seed = seed;
    let mut app = App::new(40, max_cannon_lasers, max_invader_lasers, level);
    assert!(app.is_wf());
    assert!(app.can_tick());

    for _ in 0..steps {
        let score = app.score;
        let level = app.level;
        let count = app.grid.count();
        let pace = app.alien_counter_max;
        let threshold = app.count_threshold;
        let restart = app.started && app.game_over;

        let choice = next(&mut seed) % 24;
        match choice {
            0..=2 => app.on_left(),
            3..=5 => app.on_right(),
            6..=8 => app.on_space(),
            9 => {
                app.on_p();
                assert!(app.is_wf());
                app.on_p();
            }
            10 => {
                app.on_h();
                assert!(app.is_wf());
                app.on_h();
            }
            _ => {
                assert!(app.can_tick());
                let idle = if app.playing() {
                    None
                } else {
                    Some(format!("{:?}", app))
                };
                if choice % 2 == 0 {
                    app.on_tick();
                } else {
                    app.on_tick_with((next(&mut seed) % 8) as usize);
                }
                if let Some(before) = idle {
                    assert_eq!(format!("{:?}", app), before);
                }
                if app.level == level {
                    assert!(app.grid.count() <= count);
                    assert!(app.alien_counter_max <= pace);
                    assert!(app.count_threshold <= threshold);
                } else {
                    assert_eq!(app.level, if level < 6 { level + 1 } else { 0 });
                    assert_eq!(app.grid.count(), 40);
                    assert_eq!(app.count_threshold, 40);
                    assert_eq!(app.alien_counter_max, 5);
                }
                assert!(app.score >= score);
            }
        }

        assert!(app.is_wf());
        assert!(app.cannon_lasers.len() <= app.max_cannon_lasers);
        assert!(app.invader_lasers.len() <= app.max_invader_lasers);
        assert!(0 <= app.cannon.left && app.cannon.left <= 185);
        assert!(app.alien_counter_max <= 5);
        assert!(app.lives <= 3);
        assert!(app.level <= 6);
        let sum: usize = app.grid.rows.iter().map(|row| row.count).sum();
        assert_eq!(app.grid.count(), sum);
        lasers_in_field(&app);
        if choice <= 10 && !(restart && (6..=8).contains(&choice)) {
            assert_eq!(app.score, score);
            assert_eq!(app.level, level);
            assert_eq!(app.grid.count(), count);
            assert_eq!(app.alien_counter_max, pace);
            assert_eq!(app.count_threshold, threshold);
        }
    }

    app
}

#[test]
fn invariants_hold_through_a_long_game() {
    let app = play(1, 30000, 1, 3, 0);
    assert!(app.started);
}

#[test]
fn invariants_hold_with_many_lasers() {
    let app = play(7, 30000, 8, 12, 2);
    assert!(app.started);
}

#[test]
fn invariants_hold_from_the_last_level() {
    let app = play(2024, 30000, 3, 1, 6);
    assert!(app.started);
}

#[test]
fn a_long_game_scores() {
    let mut best = 0;
    for seed in 0..8 {
        let app = play(seed, 8000, 4, 3, 0);
        if app.score > best {
            best = app.score;
        }
    }
    assert!(best > 0);
}
