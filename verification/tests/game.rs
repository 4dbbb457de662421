use srg::fixed::Fixed;
use srg::game::{
    Direction, DirectionalExplosion, Effect, Env, FrameInput, GameState, Projectile,
    ProjectileHit, ProjectileType,
};
use srg::sheet::Sheet;

fn projectile(arrival: i64, direction: Direction) -> Projectile {
    Projectile { arrival_time: Fixed::from_raw(arrival), direction, ty: ProjectileType::Normal }
}

/// At sixty beats per minute and speed one, a projectile is its seconds to
/// go plus the shield radius away.
fn at_distance(whole: i32, direction: Direction) -> (Projectile, Env, Fixed) {
    let env = Env { time: Fixed::from_int(100), speed: Fixed::from_int(1) };
    let projectile =
        Projectile { arrival_time: Fixed::from_int(100 + whole - 48), direction, ty: ProjectileType::Normal };
    (projectile, env, Fixed::from_int(60))
}

fn idle(frame_time: i64) -> FrameInput {
    FrameInput {
        frame_time: Fixed::from_raw(frame_time),
        up: false,
        down: false,
        left: false,
        right: false,
        restart: false,
    }
}

fn sheet_of(bpm: i32, projectiles: Vec<Projectile>) -> Sheet {
    Sheet { bpm: Fixed::from_int(bpm), start_offset: Fixed::zero(), projectiles }
}

fn explosion(position: (i64, i64), direction: Direction) -> DirectionalExplosion {
    DirectionalExplosion {
        amount: 10,
        position: (Fixed::from_raw(position.0), Fixed::from_raw(position.1)),
        direction,
        spread: Fixed::from_raw(200_000),
        speed: (Fixed::from_int(128), Fixed::from_int(338)),
        size: Fixed::from_int(10),
        life_time: Fixed::from_int(5),
    }
}

// Directions

#[test]
fn angles_are_quarter_turns() {
    assert_eq!(Direction::Right.angle(), 0);
    assert_eq!(Direction::Down.angle(), 1);
    assert_eq!(Direction::Left.angle(), 2);
    assert_eq!(Direction::Up.angle(), -1);
}

#[test]
fn directions_by_index() {
    assert_eq!(Direction::from_index(0), Direction::Up);
    assert_eq!(Direction::from_index(1), Direction::Down);
    assert_eq!(Direction::from_index(2), Direction::Left);
    assert_eq!(Direction::from_index(3), Direction::Right);
}

#[test]
fn random_directions_cover_all_four() {
    let mut seen = [false; 4];
    for _ in 0..1000 {
        match Direction::random() {
            Direction::Up => seen[0] = true,
            Direction::Down => seen[1] = true,
            Direction::Left => seen[2] = true,
            Direction::Right => seen[3] = true,
        }
    }
    assert_eq!(seen, [true; 4]);
}

#[test]
fn random_projectile_keeps_its_time() {
    let p = Projectile::random(Fixed::from_raw(1_234_567));
    assert_eq!(p.arrival_time, Fixed::from_raw(1_234_567));
    assert_eq!(p.ty, ProjectileType::Normal);
}

// Distance

#[test]
fn env_starts_at_time_zero_and_speed_128() {
    let env = Env::new();
    assert_eq!(env.time, Fixed::zero());
    assert_eq!(env.speed, Fixed::from_int(128));
}

#[test]
fn distance_formula() {
    let p = projectile(10_000_000, Direction::Up);
    let env = Env { time: Fixed::from_int(8), speed: Fixed::from_int(128) };
    assert_eq!(p.distance(&env, Fixed::from_int(120)), Fixed::from_int(2 * 128 * 2 + 48));
    let env = Env { time: Fixed::from_raw(9_750_000), speed: Fixed::from_int(130) };
    assert_eq!(p.distance(&env, Fixed::from_int(90)), Fixed::from_raw(96_750_000));
    let env = Env { time: Fixed::from_int(11), speed: Fixed::from_int(128) };
    assert_eq!(p.distance(&env, Fixed::from_int(60)), Fixed::from_int(48 - 128));
}

#[test]
fn distance_at_arrival_is_the_shield_radius() {
    for arrival in [-5_000_000, 0, 1, 1_234_567, i64::MAX, i64::MIN] {
        for speed in [1, 128, 4000] {
            for bpm in [1, 60, 140] {
                let p = projectile(arrival, Direction::Left);
                let env = Env { time: Fixed::from_raw(arrival), speed: Fixed::from_int(speed) };
                assert_eq!(p.distance(&env, Fixed::from_int(bpm)), Fixed::from_int(48));
            }
        }
    }
}

#[test]
fn distance_falls_as_time_passes() {
    let p = projectile(3_000_000, Direction::Down);
    let bpm = Fixed::from_int(140);
    let mut last = i64::MAX;
    let mut time = -1_000_000;
    while time <= 7_000_000 {
        let env = Env { time: Fixed::from_raw(time), speed: Fixed::from_int(128) };
        let d = p.distance(&env, bpm).raw;
        assert!(d < last);
        last = d;
        time += 12_345;
    }
}

#[test]
fn distance_saturates() {
    let p = projectile(i64::MAX, Direction::Up);
    let env = Env { time: Fixed::from_raw(i64::MIN), speed: Fixed::from_int(128) };
    assert_eq!(p.distance(&env, Fixed::from_int(120)), Fixed::from_raw(i64::MAX));
    let p = projectile(i64::MIN, Direction::Up);
    let env = Env { time: Fixed::from_raw(i64::MAX), speed: Fixed::from_int(128) };
    assert_eq!(p.distance(&env, Fixed::from_int(120)), Fixed::from_raw(i64::MIN + 48_000_000));
}

#[test]
fn position_lies_along_the_direction() {
    let bpm = Fixed::from_int(60);
    let env = Env { time: Fixed::from_int(0), speed: Fixed::from_int(1) };
    let d = 50_000_000;
    assert_eq!(
        projectile(2_000_000, Direction::Right).position(&env, bpm),
        (Fixed::from_raw(d), Fixed::zero())
    );
    assert_eq!(
        projectile(2_000_000, Direction::Down).position(&env, bpm),
        (Fixed::zero(), Fixed::from_raw(d))
    );
    assert_eq!(
        projectile(2_000_000, Direction::Left).position(&env, bpm),
        (Fixed::from_raw(-d), Fixed::zero())
    );
    assert_eq!(
        projectile(2_000_000, Direction::Up).position(&env, bpm),
        (Fixed::zero(), Fixed::from_raw(-d))
    );
}

// Classification

#[test]
fn far_projectile_is_pending() {
    let (p, env, bpm) = at_distance(50, Direction::Up);
    assert_eq!(p.distance(&env, bpm), Fixed::from_int(50));
    assert_eq!(p.update(&env, &None, bpm), ProjectileHit::Pending);
    assert_eq!(p.update(&env, &Some(Direction::Up), bpm), ProjectileHit::Pending);
    assert_eq!(p.update(&env, &Some(Direction::Down), bpm), ProjectileHit::Pending);
}

#[test]
fn projectile_inside_the_ring_is_blocked_by_a_matching_shield() {
    let (p, env, bpm) = at_distance(40, Direction::Left);
    assert_eq!(p.distance(&env, bpm), Fixed::from_int(40));
    assert_eq!(p.update(&env, &Some(Direction::Left), bpm), ProjectileHit::Blocked);
    assert_eq!(p.update(&env, &Some(Direction::Right), bpm), ProjectileHit::Pending);
    assert_eq!(p.update(&env, &None, bpm), ProjectileHit::Pending);
}

#[test]
fn projectile_at_the_heart_hits_without_a_matching_shield() {
    let (p, env, bpm) = at_distance(10, Direction::Down);
    assert_eq!(p.distance(&env, bpm), Fixed::from_int(10));
    assert_eq!(p.update(&env, &None, bpm), ProjectileHit::Hit);
    assert_eq!(p.update(&env, &Some(Direction::Up), bpm), ProjectileHit::Hit);
    assert_eq!(p.update(&env, &Some(Direction::Down), bpm), ProjectileHit::Blocked);
}

#[test]
fn classification_at_the_two_radii() {
    let (p, env, bpm) = at_distance(48, Direction::Up);
    assert_eq!(p.update(&env, &Some(Direction::Up), bpm), ProjectileHit::Pending);
    let (p, env, bpm) = at_distance(16, Direction::Up);
    assert_eq!(p.update(&env, &None, bpm), ProjectileHit::Hit);
    assert_eq!(p.update(&env, &Some(Direction::Up), bpm), ProjectileHit::Blocked);
    let (p, env, bpm) = at_distance(17, Direction::Up);
    assert_eq!(p.update(&env, &None, bpm), ProjectileHit::Pending);
    let (p, env, bpm) = at_distance(-20, Direction::Up);
    assert_eq!(p.update(&env, &None, bpm), ProjectileHit::Hit);
    assert_eq!(p.update(&env, &Some(Direction::Up), bpm), ProjectileHit::Blocked);

    let env = Env { time: Fixed::from_int(100), speed: Fixed::from_int(1) };
    let just_inside = projectile(99_999_999, Direction::Up);
    assert_eq!(just_inside.update(&env, &Some(Direction::Up), bpm), ProjectileHit::Blocked);
    let just_outside = projectile(68_000_001, Direction::Up);
    assert_eq!(just_outside.update(&env, &None, bpm), ProjectileHit::Pending);
}

// Runs

#[test]
fn new_run_copies_the_sheet() {
    let sheet = sheet_of(120, vec![projectile(1, Direction::Up), projectile(2, Direction::Down)]);
    let state = GameState::new(&sheet);
    assert_eq!(state.shield, None);
    assert_eq!(state.env, Env::new());
    assert_eq!(state.projectiles, sheet.projectiles);
    assert_eq!(state.camera_shake, Fixed::zero());
    assert_eq!(state.score, 0);
    assert_eq!(state.death, None);
}

#[test]
fn frame_moves_time_and_speed() {
    let sheet = sheet_of(120, vec![projectile(50_000_000, Direction::Up)]);
    let mut state = GameState::new(&sheet);
    let out = state.update(&sheet, &idle(16_000));
    assert_eq!(out.scaled_time, Fixed::from_raw(16_000));
    assert!(out.effects.is_empty());
    assert_eq!(state.env.time, Fixed::from_raw(16_000));
    assert_eq!(state.env.speed, Fixed::from_raw(128_032_000));
    assert_eq!(state.projectiles, sheet.projectiles);
    assert_eq!(state.score, 0);
    assert_eq!(state.death, None);
    assert_eq!(state.shield, None);
}

#[test]
fn shield_follows_the_keys() {
    let sheet = sheet_of(120, vec![]);
    let mut state = GameState::new(&sheet);
    state.update(&sheet, &FrameInput { up: true, ..idle(1000) });
    assert_eq!(state.shield, Some(Direction::Up));
    state.update(&sheet, &idle(1000));
    assert_eq!(state.shield, Some(Direction::Up));
    state.update(&sheet, &FrameInput { down: true, ..idle(1000) });
    assert_eq!(state.shield, Some(Direction::Down));
    state.update(&sheet, &FrameInput { left: true, ..idle(1000) });
    assert_eq!(state.shield, Some(Direction::Left));
    state.update(&sheet, &FrameInput { right: true, ..idle(1000) });
    assert_eq!(state.shield, Some(Direction::Right));
}

#[test]
fn of_several_keys_the_last_in_order_wins() {
    let sheet = sheet_of(120, vec![]);
    let mut state = GameState::new(&sheet);
    state.update(&sheet, &FrameInput { up: true, down: true, ..idle(0) });
    assert_eq!(state.shield, Some(Direction::Down));
    state.update(&sheet, &FrameInput { up: true, left: true, down: true, ..idle(0) });
    assert_eq!(state.shield, Some(Direction::Left));
    state.update(&sheet, &FrameInput { up: true, left: true, down: true, right: true, ..idle(0) });
    assert_eq!(state.shield, Some(Direction::Right));
    state.update(&sheet, &FrameInput { up: true, ..idle(0) });
    assert_eq!(state.shield, Some(Direction::Up));
}

#[test]
fn blocked_projectile_scores_and_leaves() {
    let sheet = sheet_of(
        60,
        vec![
            projectile(1_000_000, Direction::Up),
            projectile(1_000_000, Direction::Down),
            projectile(9_000_000, Direction::Up),
        ],
    );
    let mut state = GameState::new(&sheet);
    state.env = Env { time: Fixed::from_raw(1_000_000), speed: Fixed::from_int(1) };
    let out = state.update(&sheet, &FrameInput { up: true, ..idle(500_000) });
    // At 1.5 s the first two are half a unit inside the ring.
    assert_eq!(state.score, 1);
    assert_eq!(state.projectiles, vec![sheet.projectiles[1], sheet.projectiles[2]]);
    assert_eq!(state.death, None);
    assert_eq!(out.effects, vec![Effect::Blocked(explosion((0, -47_500_000), Direction::Up))]);
    assert_eq!(state.camera_shake, Fixed::from_raw(9_000));
    assert_eq!(state.env.time, Fixed::from_raw(1_500_000));
    assert_eq!(state.env.speed, Fixed::from_int(2));
}

#[test]
fn shield_stays_up_across_frames_and_projectiles() {
    let sheet = sheet_of(
        60,
        vec![projectile(1_000_000, Direction::Left), projectile(2_000_000, Direction::Left)],
    );
    let mut state = GameState::new(&sheet);
    state.update(&sheet, &FrameInput { left: true, ..idle(100_000) });
    assert_eq!(state.score, 0);
    let mut frames = 0;
    while state.score < 2 {
        state.update(&sheet, &idle(100_000));
        frames += 1;
        assert!(frames < 100);
    }
    assert!(state.projectiles.is_empty());
    assert_eq!(state.death, None);
    assert_eq!(state.shield, Some(Direction::Left));
}

#[test]
fn hit_starts_death_and_keeps_the_projectile() {
    let sheet = sheet_of(60, vec![projectile(1_000_000, Direction::Up), projectile(900_000_000, Direction::Up)]);
    let mut state = GameState::new(&sheet);
    state.env = Env { time: Fixed::from_int(30), speed: Fixed::from_int(2) };
    state.camera_shake = Fixed::from_int(1);
    let out = state.update(&sheet, &FrameInput { down: true, ..idle(1_000_000) });
    assert_eq!(out.effects, vec![Effect::Hit]);
    assert_eq!(state.death, Some(Fixed::zero()));
    assert_eq!(state.projectiles, sheet.projectiles);
    assert_eq!(state.score, 0);
    assert_eq!(state.camera_shake, Fixed::zero());
    assert_eq!(state.env.speed, Fixed::from_int(4));
}

#[test]
fn effects_come_in_the_order_of_the_projectiles() {
    let sheet = sheet_of(
        60,
        vec![
            projectile(0, Direction::Right),
            projectile(0, Direction::Up),
            projectile(900_000_000, Direction::Up),
            projectile(0, Direction::Right),
            projectile(0, Direction::Down),
        ],
    );
    let mut state = GameState::new(&sheet);
    state.env = Env { time: Fixed::from_int(40), speed: Fixed::from_int(1) };
    let out = state.update(&sheet, &FrameInput { right: true, ..idle(0) });
    let burst = Effect::Blocked(explosion((8_000_000, 0), Direction::Right));
    assert_eq!(out.effects, vec![burst, Effect::Hit, burst, Effect::Hit]);
    assert_eq!(state.score, 2);
    assert_eq!(state.death, Some(Fixed::zero()));
    assert_eq!(
        state.projectiles,
        vec![sheet.projectiles[1], sheet.projectiles[2], sheet.projectiles[4]]
    );
    // The first hit clears the shake, the block after it adds a hundredth,
    // the last hit clears it again.
    assert_eq!(state.camera_shake, Fixed::zero());
}

#[test]
fn camera_shake_adds_up_and_decays() {
    let sheet = sheet_of(60, vec![projectile(0, Direction::Up), projectile(0, Direction::Up)]);
    let mut state = GameState::new(&sheet);
    state.env = Env { time: Fixed::from_int(1), speed: Fixed::from_int(1) };
    state.update(&sheet, &FrameInput { up: true, ..idle(0) });
    assert_eq!(state.camera_shake, Fixed::from_raw(18_000));
    state.update(&sheet, &idle(0));
    assert_eq!(state.camera_shake, Fixed::from_raw(16_200));
    state.update(&sheet, &idle(0));
    assert_eq!(state.camera_shake, Fixed::from_raw(14_580));
}

#[test]
fn dying_run_only_runs_its_clocks() {
    let sheet = sheet_of(60, vec![projectile(0, Direction::Up)]);
    let mut state = GameState::new(&sheet);
    state.env = Env { time: Fixed::from_int(40), speed: Fixed::from_int(7) };
    state.death = Some(Fixed::from_raw(500_000));
    state.camera_shake = Fixed::from_raw(5);
    state.score = 3;
    let out = state.update(&sheet, &FrameInput { up: true, ..idle(100_000) });
    assert_eq!(out.scaled_time, Fixed::from_raw(50_000));
    assert!(out.effects.is_empty());
    assert_eq!(state.env.time, Fixed::from_raw(40_050_000));
    assert_eq!(state.env.speed, Fixed::from_int(7));
    assert_eq!(state.death, Some(Fixed::from_raw(600_000)));
    assert_eq!(state.shield, None);
    assert_eq!(state.projectiles, sheet.projectiles);
    assert_eq!(state.camera_shake, Fixed::from_raw(5));
    assert_eq!(state.score, 3);
}

#[test]
fn death_ramp_slows_time_to_a_stop() {
    let sheet = sheet_of(60, vec![]);
    let mut state = GameState::new(&sheet);
    state.death = Some(Fixed::zero());
    let mut gained = Vec::new();
    for _ in 0..10 {
        gained.push(state.update(&sheet, &idle(100_000)).scaled_time.raw);
    }
    assert_eq!(
        gained,
        vec![100_000, 90_000, 80_000, 70_000, 60_000, 50_000, 40_000, 30_000, 20_000, 10_000]
    );
    assert_eq!(state.env.time, Fixed::from_raw(550_000));
    assert!(state.env.time.raw < 1_000_000);
    assert_eq!(state.death, Some(Fixed::from_int(1)));
    for _ in 0..5 {
        let out = state.update(&sheet, &idle(100_000));
        assert_eq!(out.scaled_time, Fixed::zero());
    }
    assert_eq!(state.env.time, Fixed::from_raw(550_000));
    assert_eq!(state.death, Some(Fixed::from_raw(1_500_000)));
}

#[test]
fn death_ramp_in_one_frame_of_a_second_loses_nothing() {
    let sheet = sheet_of(60, vec![]);
    let mut state = GameState::new(&sheet);
    state.death = Some(Fixed::zero());
    let out = state.update(&sheet, &idle(1_000_000));
    assert_eq!(out.scaled_time, Fixed::from_int(1));
    assert_eq!(state.death, Some(Fixed::from_int(1)));
}

#[test]
fn death_ramp_in_uneven_frames() {
    let sheet = sheet_of(60, vec![]);
    let mut state = GameState::new(&sheet);
    state.death = Some(Fixed::zero());
    let mut total = 0;
    for frame in [0, 999_999, 0, 1] {
        total += state.update(&sheet, &idle(frame)).scaled_time.raw;
    }
    assert_eq!(total, 999_999);
    assert_eq!(state.env.time, Fixed::from_raw(999_999));
    assert_eq!(state.death, Some(Fixed::from_int(1)));
}

#[test]
fn restart_brings_the_fresh_state_back() {
    let sheet = sheet_of(60, vec![projectile(0, Direction::Up), projectile(5, Direction::Left)]);
    let mut state = GameState::new(&sheet);
    state.env = Env { time: Fixed::from_int(1), speed: Fixed::from_int(1) };
    state.update(&sheet, &FrameInput { up: true, ..idle(10_000) });
    assert_eq!(state.score, 1);
    assert_eq!(state.projectiles.len(), 1);
    state.restart(&sheet);
    let fresh = GameState::new(&sheet);
    assert_eq!(state.shield, fresh.shield);
    assert_eq!(state.env, fresh.env);
    assert_eq!(state.projectiles, fresh.projectiles);
    assert_eq!(state.camera_shake, fresh.camera_shake);
    assert_eq!(state.score, fresh.score);
    assert_eq!(state.death, fresh.death);
}

#[test]
fn restart_twice_is_restart_once() {
    let sheet = sheet_of(60, vec![projectile(0, Direction::Up)]);
    let mut once = GameState::new(&sheet);
    once.death = Some(Fixed::from_int(3));
    once.score = 9;
    once.restart(&sheet);
    let mut twice = GameState::new(&sheet);
    twice.shield = Some(Direction::Down);
    twice.projectiles.clear();
    twice.restart(&sheet);
    twice.restart(&sheet);
    assert_eq!(once.shield, twice.shield);
    assert_eq!(once.env, twice.env);
    assert_eq!(once.projectiles, twice.projectiles);
    assert_eq!(once.camera_shake, twice.camera_shake);
    assert_eq!(once.score, twice.score);
    assert_eq!(once.death, twice.death);
}

#[test]
fn restart_request_ends_the_frame() {
    let sheet = sheet_of(60, vec![projectile(0, Direction::Up), projectile(0, Direction::Down)]);
    let mut state = GameState::new(&sheet);
    state.env = Env { time: Fixed::from_int(40), speed: Fixed::from_int(1) };
    let out = state.update(&sheet, &FrameInput { up: true, restart: true, ..idle(250_000) });
    assert_eq!(out.scaled_time, Fixed::from_raw(250_000));
    assert_eq!(
        out.effects,
        vec![
            Effect::Blocked(explosion((0, -7_750_000), Direction::Up)),
            Effect::Hit,
            Effect::Restarted
        ]
    );
    assert_eq!(state.shield, None);
    assert_eq!(state.env, Env::new());
    assert_eq!(state.projectiles, sheet.projectiles);
    assert_eq!(state.score, 0);
    assert_eq!(state.death, None);
}

#[test]
fn restart_request_ends_death() {
    let sheet = sheet_of(60, vec![projectile(0, Direction::Up)]);
    let mut state = GameState::new(&sheet);
    state.death = Some(Fixed::from_int(2));
    let out = state.update(&sheet, &FrameInput { restart: true, ..idle(250_000) });
    assert_eq!(out.scaled_time, Fixed::zero());
    assert_eq!(out.effects, vec![Effect::Restarted]);
    assert_eq!(state.death, None);
    assert_eq!(state.env, Env::new());
}

#[test]
fn a_compiled_chart_can_be_played() {
    let sheet = Sheet::parse("#bpm 120.0 #offset 1.0 norm U 1|0 norm D 1|0 norm L 0|1").unwrap();
    let mut state = GameState::new(&sheet);
    let mut blocked = 0;
    let mut frames = 0;
    state.update(&sheet, &FrameInput { up: true, ..idle(0) });
    while state.death.is_none() && frames < 10_000 {
        let next = state.projectiles.first().map(|p| p.direction);
        let input = FrameInput {
            up: next == Some(Direction::Up),
            down: next == Some(Direction::Down),
            left: false,
            ..idle(10_000)
        };
        for effect in state.update(&sheet, &input).effects {
            if let Effect::Blocked(_) = effect {
                blocked += 1;
            }
        }
        frames += 1;
    }
    assert_eq!(blocked, 2);
    assert_eq!(state.score, 2);
    assert_eq!(state.death, Some(Fixed::zero()));
    assert_eq!(state.projectiles.len(), 1);
    assert_eq!(state.projectiles[0].direction, Direction::Left);
}
