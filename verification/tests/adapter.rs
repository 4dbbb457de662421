use srg::fixed::{Fixed, SCALE};
use srg::game::{Direction, Effect, Env, FrameInput, GameState, Projectile, ProjectileType};
use srg::sheet::Sheet;

fn to_fixed(value: f32) -> Fixed {
    Fixed::from_raw((value as f64 * SCALE as f64).floor() as i64)
}

fn to_float(value: Fixed) -> f32 {
    (value.raw as f64 / SCALE as f64) as f32
}

fn radians(direction: Direction) -> f32 {
    direction.angle() as f32 * std::f32::consts::PI / 2.0
}

#[test]
fn floats_go_in_and_out() {
    assert_eq!(to_fixed(0.5), Fixed::from_raw(500_000));
    assert_eq!(to_fixed(-2.25), Fixed::from_raw(-2_250_000));
    assert_eq!(to_fixed(128.0), Fixed::from_int(128));
    assert_eq!(to_float(Fixed::from_raw(1_500_000)), 1.5);
    assert_eq!(to_float(Fixed::from_int(-48)), -48.0);
    assert_eq!(to_fixed(f32::INFINITY), Fixed::from_raw(i64::MAX));
    assert_eq!(to_fixed(f32::NEG_INFINITY), Fixed::from_raw(i64::MIN));
}

#[test]
fn quarter_turns_are_the_screen_angles() {
    assert_eq!(radians(Direction::Right), 0.0);
    assert_eq!(radians(Direction::Down), std::f32::consts::FRAC_PI_2);
    assert_eq!(radians(Direction::Left), std::f32::consts::PI);
    assert_eq!(radians(Direction::Up), -std::f32::consts::FRAC_PI_2);
}

#[test]
fn fixed_time_follows_float_time() {
    for (fourths, beats, bars, tempo) in [(0u32, 1u32, 0u32, 120.0f32), (3, 2, 1, 140.0), (1, 0, 7, 97.5)] {
        let beat = 60.0 / tempo;
        let expected = fourths as f32 * beat / 4.0 + beats as f32 * beat + bars as f32 * beat * 4.0;
        let offset = srg::sheet::TimeOffset { fourths, beats, bars };
        let got = to_float(offset.time(to_fixed(tempo)));
        assert!((got - expected).abs() < 1e-4, "{} {}", got, expected);
    }
}

#[test]
fn fixed_distance_follows_float_distance() {
    let p = Projectile {
        arrival_time: to_fixed(12.5),
        direction: Direction::Up,
        ty: ProjectileType::Normal,
    };
    for (time, speed, bpm) in [(0.0f32, 128.0f32, 140.0f32), (12.0, 130.5, 90.0), (13.25, 200.0, 174.0)] {
        let expected = (12.5 - time) * speed * (bpm / 60.0) + 48.0;
        let env = Env { time: to_fixed(time), speed: to_fixed(speed) };
        let got = to_float(p.distance(&env, to_fixed(bpm)));
        assert!((got - expected).abs() < 1e-2, "{} {}", got, expected);
    }
}

#[test]
fn a_run_is_well_formed_while_the_score_can_count() {
    let sheet = Sheet {
        bpm: Fixed::from_int(120),
        start_offset: Fixed::zero(),
        projectiles: vec![Projectile {
            arrival_time: Fixed::zero(),
            direction: Direction::Up,
            ty: ProjectileType::Normal,
        }],
    };
    let mut state = GameState::new(&sheet);
    assert!(state.is_wf());
    state.score = u32::MAX - 1;
    assert!(state.is_wf());
    state.score = u32::MAX;
    assert!(!state.is_wf());
    state.projectiles.clear();
    assert!(state.is_wf());
}

#[test]
fn effects_can_be_told_apart() {
    let sheet = Sheet {
        bpm: Fixed::from_int(60),
        start_offset: Fixed::zero(),
        projectiles: vec![Projectile {
            arrival_time: Fixed::zero(),
            direction: Direction::Right,
            ty: ProjectileType::Normal,
        }],
    };
    let mut state = GameState::new(&sheet);
    let input = FrameInput {
        frame_time: to_fixed(0.25),
        up: false,
        down: false,
        left: false,
        right: true,
        restart: true,
    };
    let out = state.update(&sheet, &input);
    let mut seen = Vec::new();
    for effect in &out.effects {
        match effect {
            Effect::Blocked(burst) => {
                assert_eq!(burst.amount, 10);
                assert_eq!(to_float(burst.spread), 0.2);
                assert_eq!(to_float(burst.speed.0), 128.0);
                assert_eq!(to_float(burst.speed.1), 338.0);
                assert_eq!(to_float(burst.life_time), 5.0);
                assert_eq!(to_float(burst.size), 10.0);
                assert_eq!(to_float(burst.position.0), 16.0);
                assert_eq!(to_float(burst.position.1), 0.0);
                seen.push("blocked");
            }
            Effect::Hit => seen.push("hit"),
            Effect::Restarted => seen.push("restarted"),
        }
    }
    assert_eq!(seen, vec!["blocked", "restarted"]);
    assert_eq!(to_float(out.scaled_time), 0.25);
}
