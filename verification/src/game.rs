//! The run: projectiles closing in on the heart, the shield that blocks
//! them, and the frame-by-frame advance of time, score and death.

use vstd::prelude::*;
use crate::fixed::{saturate, Fixed, SCALE};
use crate::sheet::{outcome, ParseError, ParseErrorView, Sheet, Token, TokenStream};

verus! {

/// Radius of the shield ring, in whole screen units.
pub const SHIELD_RADIUS: i32 = 48;

/// Radius at which a projectile hurts the heart, in whole screen units.
pub const HEART_RADIUS: i32 = 16;

/// Approach speed at the start of a run, in whole units.
pub const INITIAL_SPEED: i32 = 128;

/// Raw camera shake added by each blocked projectile: a hundredth.
pub const SHAKE_IMPULSE: i64 = 10_000;

/// Raw factor by which camera shake decays each frame: nine tenths.
pub const SHAKE_DECAY: i64 = 900_000;

/// Particles in the explosion of a blocked projectile.
pub const EXPLOSION_AMOUNT: usize = 10;

/// Raw half-width of an explosion's fan, in radians: a fifth.
pub const EXPLOSION_SPREAD: i64 = 200_000;

/// One of the four sides a projectile can come from and the shield can face.
#[derive(Clone, Copy, Debug, PartialEq, Eq, Structural)]
pub enum Direction {
    Up,
    Down,
    Left,
    Right,
}

/// The kinds of projectile a chart can name.
#[derive(Clone, Copy, Debug, PartialEq, Eq, Structural)]
pub enum ProjectileType {
    Normal,
}

/// What became of a projectile in one frame.
#[derive(Clone, Copy, Debug, PartialEq, Eq, Structural)]
pub enum ProjectileHit {
    /// Still on its way.
    Pending,
    /// Stopped by the shield.
    Blocked,
    /// Reached the heart.
    Hit,
}

/// Music time and approach speed of a run.
#[derive(Clone, Copy, Debug, PartialEq, Eq, Structural)]
pub struct Env {
    /// Seconds of music time elapsed.
    pub time: Fixed,
    /// Screen units a projectile covers per beat.
    pub speed: Fixed,
}

/// A projectile: it reaches the shield ring at `arrival_time` seconds of
/// music time, coming from `direction`.
#[derive(Clone, Copy, Debug, PartialEq, Eq, Structural)]
pub struct Projectile {
    pub arrival_time: Fixed,
    pub direction: Direction,
    pub ty: ProjectileType,
}

/// The burst of particles that a blocked projectile leaves behind.
#[derive(Clone, Copy, Debug, PartialEq, Eq)]
pub struct DirectionalExplosion {
    /// Number of particles.
    pub amount: usize,
    /// Where the burst starts, relative to the heart.
    pub position: (Fixed, Fixed),
    /// Centre of the fan along which the particles fly.
    pub direction: Direction,
    /// Half-width of the fan, in radians.
    pub spread: Fixed,
    /// Least and greatest particle speed.
    pub speed: (Fixed, Fixed),
    /// Particle size.
    pub size: Fixed,
    /// Seconds a particle lives.
    pub life_time: Fixed,
}

/// What a frame asks of the sound and particle systems, in order.
#[derive(Clone, Copy, Debug, PartialEq, Eq)]
pub enum Effect {
    /// A projectile was blocked: play the kick and spawn the explosion.
    Blocked(DirectionalExplosion),
    /// A projectile reached the heart: stop the song and play the death sound.
    Hit,
    /// The run started over: clear the particles and play the song.
    Restarted,
}

/// What the player and the clock did since the last frame.
#[derive(Clone, Copy, Debug, PartialEq, Eq, Structural)]
pub struct FrameInput {
    /// Seconds of real time since the last frame.
    pub frame_time: Fixed,
    /// Whether each direction was freshly pressed.
    pub up: bool,
    pub down: bool,
    pub left: bool,
    pub right: bool,
    /// Whether a restart was freshly requested.
    pub restart: bool,
}

/// What a frame hands back to its caller.
pub struct FrameOutput {
    /// Seconds of music time the frame advanced by.
    pub scaled_time: Fixed,
    /// The effects to perform, in order.
    pub effects: Vec<Effect>,
}

/// The state of a run.
pub struct GameState {
    /// Direction the shield faces, once the player has chosen one.
    pub shield: Option<Direction>,
    pub env: Env,
    /// The projectiles not yet blocked, in chart order.
    pub projectiles: Vec<Projectile>,
    pub camera_shake: Fixed,
    pub score: u32,
    /// Seconds of real time since the heart was hit, if it was.
    pub death: Option<Fixed>,
}

/// A `GameState` as a mathematical value.
pub struct GameStateView {
    pub shield: Option<Direction>,
    pub env: Env,
    pub projectiles: Seq<Projectile>,
    pub camera_shake: Fixed,
    pub score: u32,
    pub death: Option<Fixed>,
}

impl View for GameState {
    type V = GameStateView;

    open spec fn view(&self) -> GameStateView {
        GameStateView {
            shield: self.shield,
            env: self.env,
            projectiles: self.projectiles@,
            camera_shake: self.camera_shake,
            score: self.score,
            death: self.death,
        }
    }
}

impl Env {
    /// Time and speed at the start of a run.
    pub open spec fn spec_new() -> Env {
        Env { time: Fixed::spec_zero(), speed: Fixed::spec_from_int(INITIAL_SPEED as int) }
    }

    /// Time and speed at the start of a run: no time elapsed, the initial
    /// approach speed.
    pub fn new() -> (env: Env)
        ensures
            env == Env::spec_new(),
    {
        Env { time: Fixed::zero(), speed: Fixed::from_int(INITIAL_SPEED) }
    }
}

/// Draws a number from the process-wide generator of `quad_rand`, by its
/// `gen_range`. That function scales a 32-bit draw into the span from `low`
/// to `high` and cuts the fraction off, so where `low` is below `high` the
/// number is at least `low` and below `high`. Which number comes is not
/// stated.
#[verifier::external_body]
fn gen_range(low: u8, high: u8) -> (drawn: u8)
    ensures
        low < high ==> low <= drawn < high,
{
    quad_rand::gen_range(low, high)
}

impl Direction {
    /// Screen angle in quarter turns, clockwise from the right-hand side.
    pub open spec fn spec_angle(self) -> int {
        match self {
            Direction::Right => 0,
            Direction::Down => 1,
            Direction::Left => 2,
            Direction::Up => -1,
        }
    }

    /// The direction numbered `index` among up, down, left, right.
    pub open spec fn spec_from_index(index: u8) -> Direction {
        if index == 0 {
            Direction::Up
        } else if index == 1 {
            Direction::Down
        } else if index == 2 {
            Direction::Left
        } else {
            Direction::Right
        }
    }

    /// A direction drawn at random.
    pub fn random() -> Direction {
        Direction::from_index(gen_range(0, 4))
    }

    /// Screen angle in quarter turns: a multiple of a right angle, measured
    /// clockwise from the right-hand side.
    pub fn angle(&self) -> (turns: i32)
        ensures
            turns == self.spec_angle(),
    {
        match self {
            Direction::Right => 0,
            Direction::Up => -1,
            Direction::Left => 2,
            Direction::Down => 1,
        }
    }

    /// The direction numbered `index` among up, down, left, right.
    pub fn from_index(index: u8) -> (direction: Direction)
        requires
            index < 4,
        ensures
            direction == Direction::spec_from_index(index),
    {
        if index == 0 {
            Direction::Up
        } else if index == 1 {
            Direction::Down
        } else if index == 2 {
            Direction::Left
        } else {
            Direction::Right
        }
    }
}

impl Projectile {
    /// Signed distance from the heart: the shield radius at the arrival
    /// time, more before it and less after it.
    pub open spec fn spec_distance(self, env: Env, bpm: Fixed) -> Fixed {
        self.arrival_time.spec_sub(env.time).spec_mul(env.speed).spec_mul(
            bpm.spec_div(Fixed::spec_from_int(60)),
        ).spec_add(Fixed::spec_from_int(SHIELD_RADIUS as int))
    }

    /// Place on screen, relative to the heart: `spec_distance` along the
    /// projectile's direction, with the vertical axis pointing down.
    pub open spec fn spec_position(self, env: Env, bpm: Fixed) -> (Fixed, Fixed) {
        let d = self.spec_distance(env, bpm);
        match self.direction {
            Direction::Right => (d, Fixed::spec_zero()),
            Direction::Down => (Fixed::spec_zero(), d),
            Direction::Left => (d.spec_neg(), Fixed::spec_zero()),
            Direction::Up => (Fixed::spec_zero(), d.spec_neg()),
        }
    }

    /// Blocked when the shield faces the projectile and it is inside the
    /// shield ring; otherwise hit when it is at or inside the heart radius;
    /// otherwise still on its way.
    pub open spec fn spec_update(self, env: Env, shield: Option<Direction>, bpm: Fixed)
        -> ProjectileHit {
        let blocking = shield == Some(self.direction);
        let distance = self.spec_distance(env, bpm);
        if blocking && distance.raw < SHIELD_RADIUS * SCALE {
            ProjectileHit::Blocked
        } else if distance.raw <= HEART_RADIUS * SCALE {
            ProjectileHit::Hit
        } else {
            ProjectileHit::Pending
        }
    }

    /// What the start of a token stream reads as: the projectile named by a
    /// kind, a direction and a time offset, arriving that offset after
    /// `offset` at `bpm` beats per minute.
    pub open spec fn spec_parse(tokens: Seq<Token>, bpm: Fixed, offset: Fixed) -> Result<
        Projectile,
        ParseErrorView,
    > {
        if tokens.len() == 0 {
            Err(ParseErrorView::UnexpectedEof)
        } else {
            match tokens[0] {
                Token::Projectile(ty) => if tokens.len() == 1 {
                    Err(ParseErrorView::UnexpectedEof)
                } else {
                    match tokens[1] {
                        Token::Direction(direction) => if tokens.len() == 2 {
                            Err(ParseErrorView::UnexpectedEof)
                        } else {
                            match tokens[2] {
                                Token::TimeOffset(time_offset) => Ok(
                                    Projectile {
                                        arrival_time: offset.spec_add(time_offset.spec_time(bpm)),
                                        direction,
                                        ty,
                                    },
                                ),
                                other => Err(ParseErrorView::UnexpectedToken(other)),
                            }
                        },
                        other => Err(ParseErrorView::UnexpectedToken(other)),
                    }
                },
                other => Err(ParseErrorView::UnexpectedToken(other)),
            }
        }
    }

    /// The number of tokens that reading a projectile takes off the stream:
    /// up to and with the first that does not fit.
    pub open spec fn spec_parse_len(tokens: Seq<Token>) -> int {
        if tokens.len() == 0 {
            0
        } else if !(tokens[0] is Projectile) || tokens.len() == 1 {
            1
        } else if !(tokens[1] is Direction) || tokens.len() == 2 {
            2
        } else {
            3
        }
    }

    /// A normal projectile that arrives at `time` from a direction drawn at
    /// random.
    pub fn random(time: Fixed) -> (projectile: Projectile)
        ensures
            projectile.arrival_time == time,
            projectile.ty == ProjectileType::Normal,
    {
        Projectile { arrival_time: time, direction: Direction::random(), ty: ProjectileType::Normal }
    }

    /// Reads a projectile off the stream: its kind, its direction and its
    /// time offset, which counts from `offset`.
    pub fn parse(tokens: &mut TokenStream, bpm: Fixed, offset: Fixed) -> (r: Result<
        Projectile,
        ParseError,
    >)
        ensures
            outcome(r) == Projectile::spec_parse(old(tokens)@, bpm, offset),
            final(tokens)@ == old(tokens)@.skip(Projectile::spec_parse_len(old(tokens)@)),
    {
        let ghost before = tokens@;
        proof {
            assert(before.skip(0) =~= before);
            if before.len() > 0 {
                assert(before.drop_first() =~= before.skip(1));
            }
            if before.len() > 1 {
                assert(before.skip(1).drop_first() =~= before.skip(2));
                assert(before.skip(1)[0] == before[1]);
            }
            if before.len() > 2 {
                assert(before.skip(2).drop_first() =~= before.skip(3));
                assert(before.skip(2)[0] == before[2]);
            }
        }
        let ty = match tokens.next_token() {
            Ok(Token::Projectile(ty)) => ty,
            Ok(other) => {
                return Err(ParseError::UnexpectedToken(other));
            },
            Err(e) => {
                return Err(e);
            },
        };
        let direction = match tokens.next_token() {
            Ok(Token::Direction(direction)) => direction,
            Ok(other) => {
                return Err(ParseError::UnexpectedToken(other));
            },
            Err(e) => {
                return Err(e);
            },
        };
        let time_offset = match tokens.next_token() {
            Ok(Token::TimeOffset(time_offset)) => time_offset,
            Ok(other) => {
                return Err(ParseError::UnexpectedToken(other));
            },
            Err(e) => {
                return Err(e);
            },
        };
        Ok(Projectile { arrival_time: offset.add(time_offset.time(bpm)), direction, ty })
    }

    /// Signed distance from the heart at the time and speed of `env`: the
    /// seconds left until arrival, times the speed, times the beats per
    /// second, plus the shield radius.
    pub fn distance(&self, env: &Env, bpm: Fixed) -> (d: Fixed)
        ensures
            d == self.spec_distance(*env, bpm),
    {
        self.arrival_time.sub(env.time).mul(env.speed).mul(bpm.div(Fixed::from_int(60))).add(
            Fixed::from_int(SHIELD_RADIUS),
        )
    }

    /// Place on screen, relative to the heart.
    pub fn position(&self, env: &Env, bpm: Fixed) -> (at: (Fixed, Fixed))
        ensures
            at == self.spec_position(*env, bpm),
    {
        let d = self.distance(env, bpm);
        match self.direction {
            Direction::Right => (d, Fixed::zero()),
            Direction::Down => (Fixed::zero(), d),
            Direction::Left => (d.neg(), Fixed::zero()),
            Direction::Up => (Fixed::zero(), d.neg()),
        }
    }

    /// Resolves the projectile against the shield for one frame.
    pub fn update(&self, env: &Env, shield: &Option<Direction>, bpm: Fixed) -> (hit: ProjectileHit)
        ensures
            hit == self.spec_update(*env, *shield, bpm),
    {
        let blocking = match shield {
            Some(s) => *s == self.direction,
            None => false,
        };
        let distance = self.distance(env, bpm);
        if blocking && distance.lt(Fixed::from_int(SHIELD_RADIUS)) {
            ProjectileHit::Blocked
        } else if distance.le(Fixed::from_int(HEART_RADIUS)) {
            ProjectileHit::Hit
        } else {
            ProjectileHit::Pending
        }
    }
}

/// Tells the projectiles that the shield does not stop.
pub open spec fn survives(env: Env, shield: Option<Direction>, bpm: Fixed) -> spec_fn(
    Projectile,
) -> bool {
    |p: Projectile| !(p.spec_update(env, shield, bpm) is Blocked)
}

/// Tells the projectiles that the shield stops.
pub open spec fn is_blocked(env: Env, shield: Option<Direction>, bpm: Fixed) -> spec_fn(
    Projectile,
) -> bool {
    |p: Projectile| p.spec_update(env, shield, bpm) is Blocked
}

/// The effect that a projectile causes, if any.
pub open spec fn effect_of(env: Env, shield: Option<Direction>, bpm: Fixed) -> spec_fn(
    Projectile,
) -> Option<Effect> {
    |p: Projectile|
        match p.spec_update(env, shield, bpm) {
            ProjectileHit::Pending => None,
            ProjectileHit::Blocked => Some(Effect::Blocked(p.spec_explosion(env, bpm))),
            ProjectileHit::Hit => Some(Effect::Hit),
        }
}

/// Whether any of the projectiles reaches the heart.
pub open spec fn any_hit(
    projectiles: Seq<Projectile>,
    env: Env,
    shield: Option<Direction>,
    bpm: Fixed,
) -> bool {
    exists|k: int|
        0 <= k < projectiles.len() && #[trigger] projectiles[k].spec_update(env, shield, bpm)
            is Hit
}

/// Camera shake after the projectiles were resolved in order: each blocked
/// one adds an impulse, each hit clears it.
pub open spec fn shake_after(
    projectiles: Seq<Projectile>,
    env: Env,
    shield: Option<Direction>,
    bpm: Fixed,
    shake: Fixed,
) -> Fixed
    decreases projectiles.len(),
{
    if projectiles.len() == 0 {
        shake
    } else {
        let before = shake_after(projectiles.drop_last(), env, shield, bpm, shake);
        match projectiles.last().spec_update(env, shield, bpm) {
            ProjectileHit::Pending => before,
            ProjectileHit::Blocked => before.spec_add(Fixed { raw: SHAKE_IMPULSE }),
            ProjectileHit::Hit => Fixed::spec_zero(),
        }
    }
}

impl Projectile {
    /// The explosion that the projectile leaves behind when it is blocked.
    pub open spec fn spec_explosion(self, env: Env, bpm: Fixed) -> DirectionalExplosion {
        DirectionalExplosion {
            amount: EXPLOSION_AMOUNT,
            position: self.spec_position(env, bpm),
            direction: self.direction,
            spread: Fixed { raw: EXPLOSION_SPREAD },
            speed: (Fixed::spec_from_int(128), Fixed::spec_from_int(338)),
            size: Fixed::spec_from_int(10),
            life_time: Fixed::spec_from_int(5),
        }
    }

    fn explosion(&self, env: &Env, bpm: Fixed) -> (e: DirectionalExplosion)
        ensures
            e == self.spec_explosion(*env, bpm),
    {
        DirectionalExplosion {
            amount: EXPLOSION_AMOUNT,
            position: self.position(env, bpm),
            direction: self.direction,
            spread: Fixed::from_raw(EXPLOSION_SPREAD),
            speed: (Fixed::from_int(128), Fixed::from_int(338)),
            size: Fixed::from_int(10),
            life_time: Fixed::from_int(5),
        }
    }
}

impl FrameInput {
    /// The shield after the frame's key presses: of the directions pressed,
    /// the last among up, down, left, right; the old one where none was.
    pub open spec fn spec_shield(self, shield: Option<Direction>) -> Option<Direction> {
        if self.right {
            Some(Direction::Right)
        } else if self.left {
            Some(Direction::Left)
        } else if self.down {
            Some(Direction::Down)
        } else if self.up {
            Some(Direction::Up)
        } else {
            shield
        }
    }
}

impl GameState {
    /// The state at the start of a run over `projectiles`.
    pub open spec fn spec_new(projectiles: Seq<Projectile>) -> GameStateView {
        GameStateView {
            shield: None,
            env: Env::spec_new(),
            projectiles,
            camera_shake: Fixed::spec_zero(),
            score: 0,
            death: None,
        }
    }

    /// The state after a restart over `projectiles`: a fresh run, whatever
    /// the state was.
    pub open spec fn spec_restart(state: GameStateView, projectiles: Seq<Projectile>)
        -> GameStateView {
        Self::spec_new(projectiles)
    }

    /// Music time that passes in a frame of `frame_time` seconds: all of it
    /// while alive, a share that falls to nothing over the first second
    /// after death.
    pub open spec fn spec_scaled_time(frame_time: Fixed, death: Option<Fixed>) -> Fixed {
        let progress = match death {
            Some(d) => d,
            None => Fixed::spec_zero(),
        };
        frame_time.spec_mul(Fixed::spec_from_int(1).spec_sub(progress).spec_max(Fixed::spec_zero()))
    }

    /// The state after one frame, before any restart.
    pub open spec fn spec_advance(s: GameStateView, bpm: Fixed, input: FrameInput)
        -> GameStateView {
        let time = s.env.time.spec_add(Self::spec_scaled_time(input.frame_time, s.death));
        match s.death {
            Some(d) => GameStateView {
                shield: s.shield,
                env: Env { time, speed: s.env.speed },
                projectiles: s.projectiles,
                camera_shake: s.camera_shake,
                score: s.score,
                death: Some(d.spec_add(input.frame_time)),
            },
            None => {
                let env = Env { time, speed: s.env.speed };
                let shield = input.spec_shield(s.shield);
                GameStateView {
                    shield,
                    env: Env {
                        time,
                        speed: s.env.speed.spec_add(
                            input.frame_time.spec_mul(Fixed::spec_from_int(2)),
                        ),
                    },
                    projectiles: s.projectiles.filter(survives(env, shield, bpm)),
                    camera_shake: shake_after(
                        s.projectiles,
                        env,
                        shield,
                        bpm,
                        s.camera_shake,
                    ).spec_mul(Fixed { raw: SHAKE_DECAY }),
                    score: (s.score + s.projectiles.filter(is_blocked(env, shield, bpm)).len()) as u32,
                    death: if any_hit(s.projectiles, env, shield, bpm) {
                        Some(Fixed::spec_zero())
                    } else {
                        None
                    },
                }
            },
        }
    }

    /// The effects of one frame, before any restart: none while dying; else
    /// one for each projectile blocked or hit, in order.
    pub open spec fn spec_effects(s: GameStateView, bpm: Fixed, input: FrameInput) -> Seq<Effect> {
        match s.death {
            Some(_) => Seq::empty(),
            None => {
                let env = Env {
                    time: s.env.time.spec_add(Self::spec_scaled_time(input.frame_time, s.death)),
                    speed: s.env.speed,
                };
                s.projectiles.filter_map(effect_of(env, input.spec_shield(s.shield), bpm))
            },
        }
    }

    /// The score can still count every live projectile.
    pub open spec fn wf(&self) -> bool {
        self.score + self.projectiles.len() <= u32::MAX
    }

    /// Whether the score can still count every live projectile.
    pub fn is_wf(&self) -> (ok: bool)
        ensures
            ok == self.wf(),
    {
        self.projectiles.len() <= u32::MAX as usize && self.projectiles.len() as u32 <= u32::MAX
            - self.score
    }

    /// A fresh run over the sheet's projectiles.
    pub fn new(sheet: &Sheet) -> (state: GameState)
        ensures
            state@ == GameState::spec_new(sheet.projectiles@),
    {
        let mut projectiles: Vec<Projectile> = Vec::new();
        let n: usize = sheet.projectiles.len();
        let mut i: usize = 0;
        while i < n
            invariant
                i <= n,
                n == sheet.projectiles.len(),
                projectiles@ == sheet.projectiles@.take(i as int),
            decreases n - i,
        {
            projectiles.push(sheet.projectiles[i]);
            assert(sheet.projectiles@.take(i + 1) =~= sheet.projectiles@.take(i as int).push(
                sheet.projectiles@[i as int],
            ));
            i = i + 1;
        }
        assert(sheet.projectiles@.take(n as int) =~= sheet.projectiles@);
        GameState {
            shield: None,
            env: Env::new(),
            projectiles,
            camera_shake: Fixed::zero(),
            score: 0,
            death: None,
        }
    }

    /// Throws the run away and starts a fresh one over the sheet.
    pub fn restart(&mut self, sheet: &Sheet)
        ensures
            final(self)@ == GameState::spec_restart(old(self)@, sheet.projectiles@),
    {
        *self = GameState::new(sheet);
    }

    /// Advances the run by one frame.
    ///
    /// Music time moves first, slowed after death. While dying nothing else
    /// happens but the death timer. While alive the shield follows the keys,
    /// every projectile is resolved against it in order, camera shake decays
    /// and the approach speed grows. A restart request then replaces the
    /// whole state.
    pub fn update(&mut self, sheet: &Sheet, input: &FrameInput) -> (out: FrameOutput)
        requires
            old(self).wf(),
        ensures
            out.scaled_time == GameState::spec_scaled_time(input.frame_time, old(self).death),
            old(self).death is None ==> out.scaled_time == input.frame_time,
            input.restart ==> final(self)@ == GameState::spec_restart(
                GameState::spec_advance(old(self)@, sheet.bpm, *input),
                sheet.projectiles@,
            ),
            input.restart ==> out.effects@ == GameState::spec_effects(
                old(self)@,
                sheet.bpm,
                *input,
            ).push(Effect::Restarted),
            !input.restart ==> final(self)@ == GameState::spec_advance(
                old(self)@,
                sheet.bpm,
                *input,
            ),
            !input.restart ==> out.effects@ == GameState::spec_effects(
                old(self)@,
                sheet.bpm,
                *input,
            ),
    {
        let bpm = sheet.bpm;
        let progress = match self.death {
            Some(d) => d,
            None => Fixed::zero(),
        };
        let scaled_time = input.frame_time.mul(
            Fixed::from_int(1).sub(progress).max(Fixed::zero()),
        );
        assert(progress.raw == 0 ==> scaled_time == input.frame_time) by {
            assert((input.frame_time.raw * SCALE) / (SCALE as int) == input.frame_time.raw)
                by (nonlinear_arith)
                requires
                    SCALE == 1_000_000,
            ;
        }
        self.env.time = self.env.time.add(scaled_time);
        let mut effects: Vec<Effect> = Vec::new();

        match self.death {
            Some(d) => {
                self.death = Some(d.add(input.frame_time));
            },
            None => {
                if input.up {
                    self.shield = Some(Direction::Up);
                }
                if input.down {
                    self.shield = Some(Direction::Down);
                }
                if input.left {
                    self.shield = Some(Direction::Left);
                }
                if input.right {
                    self.shield = Some(Direction::Right);
                }
                let env = self.env;
                let shield = self.shield;
                let ghost all = self.projectiles@;
                let ghost score0 = self.score;
                let ghost shake0 = self.camera_shake;
                let n: usize = self.projectiles.len();
                let mut kept: Vec<Projectile> = Vec::new();
                let mut score: u32 = self.score;
                let mut shake = self.camera_shake;
                let mut death: Option<Fixed> = None;
                let mut i: usize = 0;
                proof {
                    reveal(Seq::filter);
                    assert(all.take(0).filter(survives(env, shield, bpm)) =~= Seq::empty());
                    assert(all.take(0).filter(is_blocked(env, shield, bpm)) =~= Seq::empty());
                }
                while i < n
                    invariant
                        i <= n,
                        n == all.len(),
                        all == self.projectiles@,
                        score0 + n <= u32::MAX,
                        kept@ == all.take(i as int).filter(survives(env, shield, bpm)),
                        score == score0 + all.take(i as int).filter(
                            is_blocked(env, shield, bpm),
                        ).len(),
                        score <= score0 + i,
                        effects@ == all.take(i as int).filter_map(effect_of(env, shield, bpm)),
                        shake == shake_after(all.take(i as int), env, shield, bpm, shake0),
                        death == if any_hit(all.take(i as int), env, shield, bpm) {
                            Some(Fixed::spec_zero())
                        } else {
                            None
                        },
                    decreases n - i,
                {
                    let projectile = self.projectiles[i];
                    let hit = projectile.update(&env, &shield, bpm);
                    proof {
                        let before = all.take(i as int);
                        let after = all.take(i + 1);
                        assert(after =~= before.push(projectile));
                        assert(after.drop_last() =~= before);
                        before.lemma_filter_push(projectile, survives(env, shield, bpm));
                        before.lemma_filter_push(projectile, is_blocked(env, shield, bpm));
                        all.lemma_filter_map_take_succ(effect_of(env, shield, bpm), i as int);
                        if any_hit(before, env, shield, bpm) {
                            let k = choose|k: int|
                                0 <= k < before.len() && #[trigger] before[k].spec_update(
                                    env,
                                    shield,
                                    bpm,
                                ) is Hit;
                            assert(after[k].spec_update(env, shield, bpm) is Hit);
                        }
                        if hit is Hit {
                            assert(after[i as int].spec_update(env, shield, bpm) is Hit);
                        }
                        if any_hit(after, env, shield, bpm) && !(hit is Hit) {
                            let k = choose|k: int|
                                0 <= k < after.len() && #[trigger] after[k].spec_update(
                                    env,
                                    shield,
                                    bpm,
                                ) is Hit;
                            assert(before[k].spec_update(env, shield, bpm) is Hit);
                        }
                    }
                    match hit {
                        ProjectileHit::Pending => {
                            kept.push(projectile);
                        },
                        ProjectileHit::Blocked => {
                            shake = shake.add(Fixed::from_raw(SHAKE_IMPULSE));
                            score = score + 1;
                            effects.push(Effect::Blocked(projectile.explosion(&env, bpm)));
                        },
                        ProjectileHit::Hit => {
                            kept.push(projectile);
                            death = Some(Fixed::zero());
                            shake = Fixed::zero();
                            effects.push(Effect::Hit);
                        },
                    }
                    i = i + 1;
                }
                assert(all.take(n as int) =~= all);
                self.projectiles = kept;
                self.score = score;
                self.death = death;
                self.camera_shake = shake.mul(Fixed::from_raw(SHAKE_DECAY));
                self.env.speed = self.env.speed.add(input.frame_time.mul(Fixed::from_int(2)));
            },
        }

        if input.restart {
            self.restart(sheet);
            effects.push(Effect::Restarted);
        }
        FrameOutput { scaled_time, effects }
    }
}

/// The three outcomes by shield and distance: a projectile inside the
/// shield ring is blocked by a shield that faces it; one at or inside the
/// heart radius hits where no shield faces it; every other one is still on
/// its way.
pub proof fn lemma_classification(
    projectile: Projectile,
    env: Env,
    shield: Option<Direction>,
    bpm: Fixed,
)
    ensures
        ({
            let facing = shield == Some(projectile.direction);
            let distance = projectile.spec_distance(env, bpm).raw;
            let hit = projectile.spec_update(env, shield, bpm);
            &&& facing && distance < SHIELD_RADIUS * SCALE ==> hit is Blocked
            &&& !facing && distance <= HEART_RADIUS * SCALE ==> hit is Hit
            &&& !(facing && distance < SHIELD_RADIUS * SCALE) && !(!facing && distance
                <= HEART_RADIUS * SCALE) ==> hit is Pending
        }),
{
}

/// A larger factor gives a larger product, for a multiplier that is not
/// negative.
proof fn lemma_mul_grows(a: Fixed, b: Fixed, by: Fixed)
    requires
        a.raw <= b.raw,
        by.raw >= 0,
    ensures
        a.spec_mul(by).raw <= b.spec_mul(by).raw,
{
    assert(a.raw * by.raw <= b.raw * by.raw) by (nonlinear_arith)
        requires
            a.raw <= b.raw,
            by.raw >= 0,
    ;
}

/// As music time passes, a projectile never moves away from the heart.
pub proof fn lemma_distance_decreases(
    projectile: Projectile,
    bpm: Fixed,
    speed: Fixed,
    earlier: Fixed,
    later: Fixed,
)
    requires
        speed.raw > 0,
        bpm.raw > 0,
        earlier.raw <= later.raw,
    ensures
        projectile.spec_distance(Env { time: later, speed }, bpm).raw <= projectile.spec_distance(
            Env { time: earlier, speed },
            bpm,
        ).raw,
{
    let beats_per_second = bpm.spec_div(Fixed::spec_from_int(60));
    assert(beats_per_second.raw >= 0) by {
        assert(bpm.raw * SCALE >= 0) by (nonlinear_arith)
            requires
                bpm.raw > 0,
                SCALE == 1_000_000,
        ;
    }
    let left_later = projectile.arrival_time.spec_sub(later);
    let left_earlier = projectile.arrival_time.spec_sub(earlier);
    lemma_mul_grows(left_later, left_earlier, speed);
    lemma_mul_grows(left_later.spec_mul(speed), left_earlier.spec_mul(speed), beats_per_second);
}

/// A larger factor gives a product larger by a millionth at least, for a
/// multiplier of one or more, where neither product is cut off at the end
/// of the range.
proof fn lemma_mul_grows_strictly(a: Fixed, b: Fixed, by: Fixed)
    requires
        a.raw < b.raw,
        by.raw >= SCALE,
        a.spec_mul(by).raw > i64::MIN,
        b.spec_mul(by).raw < i64::MAX,
    ensures
        a.spec_mul(by).raw < b.spec_mul(by).raw,
{
    assert(a.raw * by.raw + SCALE <= b.raw * by.raw) by (nonlinear_arith)
        requires
            a.raw < b.raw,
            by.raw >= SCALE,
            SCALE == 1_000_000,
    ;
}

/// A product by a multiplier of one or more is at an end of the range where
/// the factor is.
proof fn lemma_mul_keeps_ends(a: Fixed, by: Fixed)
    requires
        by.raw >= SCALE,
    ensures
        a.raw == i64::MIN ==> a.spec_mul(by).raw == i64::MIN,
        a.raw == i64::MAX ==> a.spec_mul(by).raw == i64::MAX,
{
    assert(a.raw < 0 ==> a.raw * by.raw <= a.raw * SCALE) by (nonlinear_arith)
        requires
            by.raw >= SCALE,
    ;
    assert(a.raw > 0 ==> a.raw * by.raw >= a.raw * SCALE) by (nonlinear_arith)
        requires
            by.raw >= SCALE,
    ;
    assert((a.raw * SCALE) / (SCALE as int) == a.raw) by (nonlinear_arith)
        requires
            SCALE == 1_000_000,
    ;
}

/// At a speed of one or more and sixty beats per minute or more, a
/// projectile comes closer with every millionth of a second, as long as its
/// distance is not cut off at an end of the range.
pub proof fn lemma_distance_decreases_strictly(
    projectile: Projectile,
    bpm: Fixed,
    speed: Fixed,
    earlier: Fixed,
    later: Fixed,
)
    requires
        speed.raw >= SCALE,
        bpm.raw >= 60 * SCALE,
        earlier.raw < later.raw,
        projectile.spec_distance(Env { time: earlier, speed }, bpm).raw < i64::MAX,
        projectile.spec_distance(Env { time: later, speed }, bpm).raw > i64::MIN + SHIELD_RADIUS
            * SCALE,
    ensures
        projectile.spec_distance(Env { time: later, speed }, bpm).raw < projectile.spec_distance(
            Env { time: earlier, speed },
            bpm,
        ).raw,
{
    let beats_per_second = bpm.spec_div(Fixed::spec_from_int(60));
    assert(beats_per_second.raw >= SCALE) by {
        assert(bpm.raw * SCALE >= 60_000_000 * 1_000_000) by (nonlinear_arith)
            requires
                bpm.raw >= 60_000_000,
                SCALE == 1_000_000,
        ;
        assert(bpm.raw * SCALE <= 0x7fff_ffff_ffff_ffff * 1_000_000) by (nonlinear_arith)
            requires
                bpm.raw <= 0x7fff_ffff_ffff_ffff,
                SCALE == 1_000_000,
        ;
    }
    let left_later = projectile.arrival_time.spec_sub(later);
    let left_earlier = projectile.arrival_time.spec_sub(earlier);
    lemma_mul_grows(left_later, left_earlier, speed);
    lemma_mul_grows(left_later.spec_mul(speed), left_earlier.spec_mul(speed), beats_per_second);
    lemma_mul_keeps_ends(left_later, speed);
    lemma_mul_keeps_ends(left_earlier, speed);
    lemma_mul_keeps_ends(left_later.spec_mul(speed), beats_per_second);
    lemma_mul_keeps_ends(left_earlier.spec_mul(speed), beats_per_second);
    lemma_mul_grows_strictly(left_later, left_earlier, speed);
    lemma_mul_grows_strictly(
        left_later.spec_mul(speed),
        left_earlier.spec_mul(speed),
        beats_per_second,
    );
}

/// At its arrival time a projectile is exactly on the shield ring.
pub proof fn lemma_distance_at_arrival(projectile: Projectile, bpm: Fixed, speed: Fixed)
    ensures
        projectile.spec_distance(Env { time: projectile.arrival_time, speed }, bpm)
            == Fixed::spec_from_int(SHIELD_RADIUS as int),
        projectile.spec_distance(Env { time: projectile.arrival_time, speed }, bpm).raw
            == SHIELD_RADIUS * SCALE,
{
    let left = projectile.arrival_time.spec_sub(projectile.arrival_time);
    assert(left.raw == 0);
    assert(0 * speed.raw == 0) by (nonlinear_arith);
    assert(left.spec_mul(speed).raw == 0);
    let beats_per_second = bpm.spec_div(Fixed::spec_from_int(60));
    assert(0 * beats_per_second.raw == 0) by (nonlinear_arith);
    assert(left.spec_mul(speed).spec_mul(beats_per_second).raw == 0);
}

/// Restarting twice leaves the same state as restarting once.
pub proof fn lemma_restart_idempotent(state: GameStateView, projectiles: Seq<Projectile>)
    ensures
        GameState::spec_restart(GameState::spec_restart(state, projectiles), projectiles)
            == GameState::spec_restart(state, projectiles),
{
}

/// The state after the frames `inputs` in turn, none of them restarting.
pub open spec fn spec_frames(state: GameStateView, bpm: Fixed, inputs: Seq<FrameInput>)
    -> GameStateView
    decreases inputs.len(),
{
    if inputs.len() == 0 {
        state
    } else {
        spec_frames(GameState::spec_advance(state, bpm, inputs[0]), bpm, inputs.drop_first())
    }
}

/// Raw seconds of real time that the frames `inputs` add up to.
pub open spec fn real_time(inputs: Seq<FrameInput>) -> int
    decreases inputs.len(),
{
    if inputs.len() == 0 {
        0
    } else {
        inputs[0].frame_time.raw + real_time(inputs.drop_first())
    }
}

/// While dying, a frame moves music time by no more than its real time, and
/// by less once the death timer has started to run.
proof fn lemma_dying_frame(frame_time: Fixed, death: Fixed)
    requires
        frame_time.raw >= 0,
        death.raw >= 0,
    ensures
        0 <= GameState::spec_scaled_time(frame_time, Some(death)).raw <= frame_time.raw,
        death.raw == 0 ==> GameState::spec_scaled_time(frame_time, Some(death)) == frame_time,
        death.raw > 0 && frame_time.raw > 0 ==> GameState::spec_scaled_time(
            frame_time,
            Some(death),
        ).raw < frame_time.raw,
{
    let share = Fixed::spec_from_int(1).spec_sub(death).spec_max(Fixed::spec_zero());
    let x = frame_time.raw as int;
    let f = share.raw as int;
    assert(0 <= f <= SCALE);
    assert(0 <= x * f <= x * SCALE) by (nonlinear_arith)
        requires
            0 <= x,
            0 <= f <= SCALE,
    ;
    if death.raw == 0 {
        assert(f == SCALE);
    }
    if death.raw > 0 && x > 0 {
        assert(x * f <= x * SCALE - x) by (nonlinear_arith)
            requires
                0 < x,
                0 <= f <= SCALE - 1,
        ;
    }
}

/// Frames while dying move nothing but the clock and the death timer: the
/// timer by their real time, the clock by no more, and by less where the
/// timer was running and real time passed.
proof fn lemma_dying_frames(state: GameStateView, bpm: Fixed, inputs: Seq<FrameInput>)
    requires
        state.death is Some,
        state.death->0.raw >= 0,
        forall|i: int| 0 <= i < inputs.len() ==> (#[trigger] inputs[i]).frame_time.raw >= 0,
    ensures
        ({
            let end = spec_frames(state, bpm, inputs);
            &&& real_time(inputs) >= 0
            &&& end.death == Some(Fixed { raw: saturate(state.death->0.raw + real_time(inputs)) })
            &&& state.env.time.raw <= end.env.time.raw <= state.env.time.raw + real_time(inputs)
            &&& state.death->0.raw > 0 && real_time(inputs) > 0 ==> end.env.time.raw
                < state.env.time.raw + real_time(inputs)
        }),
    decreases inputs.len(),
{
    if inputs.len() > 0 {
        let next = GameState::spec_advance(state, bpm, inputs[0]);
        lemma_dying_frame(inputs[0].frame_time, state.death->0);
        assert forall|i: int| 0 <= i < inputs.drop_first().len() implies (
        #[trigger] inputs.drop_first()[i]).frame_time.raw >= 0 by {
            assert(inputs.drop_first()[i] == inputs[i + 1]);
        }
        lemma_dying_frames(next, bpm, inputs.drop_first());
    }
}

/// Death ramp: from the moment of death, frames that are each shorter than
/// a second and add up to one second of real time move music time by less
/// than a second. The death timer then stands at one second, and from there
/// on music time stands still.
pub proof fn lemma_death_ramp(state: GameStateView, bpm: Fixed, inputs: Seq<FrameInput>)
    requires
        state.death == Some(Fixed::spec_zero()),
        forall|i: int|
            0 <= i < inputs.len() ==> 0 <= (#[trigger] inputs[i]).frame_time.raw < SCALE,
        real_time(inputs) == SCALE,
    ensures
        ({
            let end = spec_frames(state, bpm, inputs);
            &&& end.death == Some(Fixed::spec_from_int(1))
            &&& state.env.time.raw <= end.env.time.raw < state.env.time.raw + SCALE
            &&& forall|frame_time: Fixed| #[trigger]
                GameState::spec_scaled_time(frame_time, end.death) == Fixed::spec_zero()
        }),
{
    lemma_ramp_from_death(state, bpm, inputs);
    assert forall|frame_time: Fixed| #[trigger]
        GameState::spec_scaled_time(frame_time, Some(Fixed::spec_from_int(1)))
            == Fixed::spec_zero() by {
        assert(frame_time.raw * 0 == 0) by (nonlinear_arith);
    }
}

/// From the moment of death, frames of which none spans all of their real
/// time move music time by less than that time.
proof fn lemma_ramp_from_death(state: GameStateView, bpm: Fixed, inputs: Seq<FrameInput>)
    requires
        state.death == Some(Fixed::spec_zero()),
        forall|i: int|
            0 <= i < inputs.len() ==> 0 <= (#[trigger] inputs[i]).frame_time.raw < real_time(
                inputs,
            ),
    ensures
        ({
            let end = spec_frames(state, bpm, inputs);
            &&& end.death == Some(Fixed { raw: saturate(real_time(inputs)) })
            &&& state.env.time.raw <= end.env.time.raw
            &&& inputs.len() > 0 ==> end.env.time.raw < state.env.time.raw + real_time(inputs)
        }),
    decreases inputs.len(),
{
    if inputs.len() > 0 {
        let next = GameState::spec_advance(state, bpm, inputs[0]);
        let rest = inputs.drop_first();
        lemma_dying_frame(inputs[0].frame_time, Fixed::spec_zero());
        assert forall|i: int| 0 <= i < rest.len() implies 0 <= (#[trigger] rest[i]).frame_time.raw
            && rest[i].frame_time.raw < real_time(inputs) by {
            assert(rest[i] == inputs[i + 1]);
        }
        if inputs[0].frame_time.raw == 0 {
            lemma_ramp_from_death(next, bpm, rest);
            assert(rest.len() > 0);
        } else {
            lemma_dying_frames(next, bpm, rest);
        }
    }
}

} // verus!
