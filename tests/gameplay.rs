use space_arcade::enemy::{
    aim, enemy_movement, enemy_shooting, enemy_spawner, fire_volley, pursue, spawn_position,
    travel_exec, Projectile, ENEMY_SPEED, FIRE_PERIOD_NS, PROJECTILE_SPEED, SPAWN_HALF_WIDTH,
    SPAWN_PERIOD_NS,
};
use space_arcade::motion::{enemy_projectile_movement, player_movement};
use space_arcade::space::{distance, distance_squared, within_range, Position};
use space_arcade::speed::{
    adjust_player_speed, apply_scroll, camera_offset, Scroll, MAX_SPEED, START_SPEED,
};
use space_arcade::timer::RepeatingTimer;

#[test]
fn scroll_down_twice_from_start() {
    let speed = adjust_player_speed(START_SPEED, &vec![Scroll::Down, Scroll::Down]);
    assert_eq!(speed, 10_000);
    assert_eq!(camera_offset(speed), 140_000);
}

#[test]
fn camera_offset_formula() {
    assert_eq!(camera_offset(0), 100_000);
    assert_eq!(camera_offset(5_000), 120_000);
    assert_eq!(camera_offset(2_500), 110_000);
    assert_eq!(camera_offset(MAX_SPEED), 500_000);
}

#[test]
fn speed_is_clamped_after_every_event() {
    let mut speed = 0;
    for _ in 0..100 {
        speed = apply_scroll(speed, Scroll::Down);
        assert!(speed <= MAX_SPEED);
    }
    assert_eq!(speed, MAX_SPEED);
    for _ in 0..100 {
        speed = apply_scroll(speed, Scroll::Up);
    }
    assert_eq!(speed, 0);
    assert_eq!(apply_scroll(0, Scroll::Up), 0);
    assert_eq!(apply_scroll(99_000, Scroll::Down), MAX_SPEED);
    assert_eq!(apply_scroll(7_500, Scroll::Still), 7_500);
    assert_eq!(apply_scroll(250_000, Scroll::Still), MAX_SPEED);
    assert_eq!(adjust_player_speed(5_000, &vec![]), 5_000);
    assert_eq!(
        adjust_player_speed(2_500, &vec![Scroll::Up, Scroll::Up, Scroll::Down]),
        2_500
    );
}

#[test]
fn enemy_out_of_range_advances_and_holds_fire() {
    let enemy = Position::new(20_000, 0, 0);
    let player = Position::origin();
    assert_eq!(distance(&enemy, &player), 20_000);
    assert!(!within_range(&enemy, &player, 15_000));
    let step = travel_exec(ENEMY_SPEED, 16_000_000);
    assert_eq!(step, 560);
    let moved = pursue(&enemy, &player, 15_000, step);
    assert_eq!(moved, Position::new(19_440, 0, 0));
    assert!(fire_volley(&vec![enemy], &player, 15_000).is_empty());
}

#[test]
fn enemy_within_range_holds_position() {
    let enemy = Position::new(0, 0, -10_000);
    let player = Position::origin();
    assert_eq!(pursue(&enemy, &player, 15_000, 560), enemy);
    let far = Position::new(0, 0, -15_001);
    assert_eq!(pursue(&far, &player, 15_000, 1), Position::new(0, 0, -15_000));
    assert_eq!(pursue(&far, &player, 15_000, 0), far);
}

#[test]
fn enemy_movement_uses_enemy_speed() {
    let enemy = Position::new(0, 100_000, 0);
    let player = Position::origin();
    let moved = enemy_movement(&enemy, &player, 1_000_000_000);
    assert_eq!(moved, Position::new(0, 65_000, 0));
    let near = Position::new(30_000, 0, 0);
    assert_eq!(enemy_movement(&near, &player, 1_000_000_000), near);
}

#[test]
fn distances_are_exact() {
    let a = Position::new(3_000, 4_000, 0);
    let b = Position::origin();
    assert_eq!(distance_squared(&a, &b), 25_000_000);
    assert_eq!(distance(&a, &b), 5_000);
    assert_eq!(distance(&Position::new(1, 1, 0), &b), 1);
    assert!(within_range(&a, &b, 5_000));
    assert!(!within_range(&a, &b, 4_999));
}

#[test]
fn aim_points_at_player() {
    let enemy = Position::new(0, 0, 30_000);
    let player = Position::origin();
    assert_eq!(aim(&enemy, &player), Position::new(0, 0, -(PROJECTILE_SPEED as i64)));
    assert_eq!(aim(&player, &player), Position::origin());
    let diag = aim(&Position::new(3_000, 4_000, 0), &player);
    assert_eq!(diag, Position::new(-30_000, -40_000, 0));
}

#[test]
fn volley_fires_from_enemies_in_range_only() {
    let player = Position::origin();
    let enemies = vec![
        Position::new(10_000, 0, 0),
        Position::new(90_000, 0, 0),
        Position::new(0, 0, 40_000),
    ];
    let shots = fire_volley(&enemies, &player, 40_000);
    assert_eq!(shots.len(), 2);
    assert_eq!(
        shots[0],
        Projectile { position: enemies[0], velocity: Position::new(-50_000, 0, 0) }
    );
    assert_eq!(
        shots[1],
        Projectile { position: enemies[2], velocity: Position::new(0, 0, -50_000) }
    );
}

#[test]
fn weapon_fires_only_when_timer_completes() {
    let player = Position::origin();
    let enemies = vec![Position::new(10_000, 0, 0)];
    let mut timer = RepeatingTimer::new(FIRE_PERIOD_NS);
    let (volleys, shots) = enemy_shooting(&mut timer, 1_500_000_000, &enemies, &player);
    assert_eq!(volleys, 0);
    assert!(shots.is_empty());
    let (volleys, shots) = enemy_shooting(&mut timer, 500_000_000, &enemies, &player);
    assert_eq!(volleys, 1);
    assert_eq!(shots.len(), 1);
    assert_eq!(timer.elapsed_ns, 0);
    let far = vec![Position::new(100_000, 0, 0)];
    let (volleys, shots) = enemy_shooting(&mut timer, 2_000_000_000, &far, &player);
    assert_eq!(volleys, 1);
    assert!(shots.is_empty());
}

#[test]
fn weapon_fires_once_per_completed_period() {
    let player = Position::origin();
    let enemies = vec![Position::new(10_000, 0, 0), Position::new(0, 20_000, 0)];
    let mut timer = RepeatingTimer::new(FIRE_PERIOD_NS);
    let (volleys, shots) = enemy_shooting(&mut timer, 7_000_000_000, &enemies, &player);
    assert_eq!(volleys, 3);
    assert_eq!(shots.len(), 2);
    assert_eq!(timer.elapsed_ns, 1_000_000_000);
}

#[test]
fn timer_fires_once_per_period() {
    let mut timer = RepeatingTimer::new(2_000_000_000);
    let mut fired = 0;
    for _ in 0..3 {
        fired += timer.tick(500_000_000);
    }
    assert_eq!(fired, 0);
    assert_eq!(timer.tick(500_000_000), 1);
    assert_eq!(timer.elapsed_ns, 0);
    assert_eq!(timer.tick(5_000_000_000), 2);
    assert_eq!(timer.elapsed_ns, 1_000_000_000);
    let mut total = 0;
    for _ in 0..70 {
        total += timer.tick(100_000_000);
    }
    assert_eq!(total, 4);
    assert_eq!(timer.elapsed_ns, 0);
    assert!(!timer.just_finished(1_999_999_999));
    assert!(timer.just_finished(1));
}

#[test]
fn spawner_places_enemies_in_square() {
    for _ in 0..50 {
        let p = spawn_position();
        assert!(-SPAWN_HALF_WIDTH <= p.x && p.x < SPAWN_HALF_WIDTH);
        assert_eq!(p.y, 0);
        assert!(-SPAWN_HALF_WIDTH <= p.z && p.z < SPAWN_HALF_WIDTH);
    }
    let mut timer = RepeatingTimer::new(SPAWN_PERIOD_NS);
    assert!(enemy_spawner(&mut timer, 4_000_000_000).is_empty());
    assert_eq!(enemy_spawner(&mut timer, 1_000_000_000).len(), 1);
    assert_eq!(timer.elapsed_ns, 0);
}

#[test]
fn spawner_places_one_enemy_per_completed_period() {
    let mut timer = RepeatingTimer::new(SPAWN_PERIOD_NS);
    let placed = enemy_spawner(&mut timer, 10_000_000_000);
    assert_eq!(placed.len(), 2);
    for p in &placed {
        assert!(-SPAWN_HALF_WIDTH <= p.x && p.x < SPAWN_HALF_WIDTH);
        assert_eq!(p.y, 0);
        assert!(-SPAWN_HALF_WIDTH <= p.z && p.z < SPAWN_HALF_WIDTH);
    }
    assert_eq!(timer.elapsed_ns, 0);
    let mut total = 0;
    for _ in 0..11 {
        total += enemy_spawner(&mut timer, 1_000_000_000).len();
    }
    assert_eq!(total, 2);
    assert_eq!(timer.elapsed_ns, 1_000_000_000);
}

#[test]
fn projectile_beyond_range_is_removed() {
    let at_rest = Position::origin();
    let outside = Projectile { position: Position::new(200_001, 0, 0), velocity: at_rest };
    assert_eq!(enemy_projectile_movement(&outside, 16_000_000), None);
    let edge = Projectile { position: Position::new(0, -200_000, 0), velocity: at_rest };
    assert_eq!(enemy_projectile_movement(&edge, 16_000_000), Some(edge));
    let diagonal = Projectile { position: Position::new(150_000, 150_000, 0), velocity: at_rest };
    assert_eq!(enemy_projectile_movement(&diagonal, 0), None);
}

#[test]
fn projectile_moves_by_velocity() {
    let p = Projectile {
        position: Position::new(0, 0, 0),
        velocity: Position::new(-50_000, 0, 25_000),
    };
    let q = enemy_projectile_movement(&p, 100_000_000).unwrap();
    assert_eq!(q.position, Position::new(-5_000, 0, 2_500));
    assert_eq!(q.velocity, p.velocity);
    let leaving = Projectile {
        position: Position::new(199_000, 0, 0),
        velocity: Position::new(50_000, 0, 0),
    };
    assert_eq!(enemy_projectile_movement(&leaving, 100_000_000), None);
}

#[test]
fn player_moves_forward_only_when_held() {
    let start = Position::new(1_000, 0, -2_000);
    let forward = Position::new(1_000, 0, 0);
    assert_eq!(
        player_movement(&start, &forward, START_SPEED, 1_000_000_000, true),
        Position::new(6_000, 0, -2_000)
    );
    assert_eq!(player_movement(&start, &forward, START_SPEED, 1_000_000_000, false), start);
    let back = Position::new(0, 0, -1_000);
    assert_eq!(
        player_movement(&start, &back, 10_000, 500_000_000, true),
        Position::new(1_000, 0, -7_000)
    );
}
