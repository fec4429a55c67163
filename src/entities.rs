use crate::geometry::{
    abs, centered_rect, lemma_resized_within, div_trunc, in_reach, is_root_up, len_sq, lemma_len_sq_bound,
    lemma_root_covers, lemma_square_monotone, lemma_trunc_div_bound, move_by, moved, rect_around,
    resize, resized, root_up, sqrt_up, trunc_div, within, wrap, wrapped, Rect, Vec2, FIELD_HEIGHT,
    FIELD_WIDTH, POS_LIMIT, SPEED_LIMIT, UNIT,
};
use rand::Rng;
use vstd::arithmetic::div_mod::lemma_fundamental_div_mod;
use vstd::prelude::*;

verus! {

/// Top speed of the ship, in sub-units per second.
pub const MAX_SPEED: i64 = 350_000;

/// Thrust, in pixels per second squared.
pub const ACC_RATE: i64 = 500;

/// Turning speed, in microradians per millisecond.
pub const ROTATION_RATE: i64 = 6000;

/// One full turn, in microradians.
pub const FULL_TURN: i64 = 6_283_185;

pub const PLAYER_RADIUS: u32 = 14;

/// How far ahead of the ship's centre a bullet appears, in pixels.
pub const NOSE_OFFSET: i64 = 10;

pub const BULLET_RADIUS: u32 = 3;

/// Bullet speed, in pixels per second.
pub const BULLET_SPEED: i64 = 800;

/// Fragments smaller than this are not made.
pub const ASTEROID_MIN_RADIUS: u32 = 10;

pub const ASTEROID_MAX_RADIUS: u32 = 0x10_0000;

pub const PARTICLE_RADIUS: u32 = 2;

/// Particles are dropped once this old, in milliseconds.
pub const PARTICLE_LIFETIME_MS: u64 = 1500;

/// A heading as a vector whose length is `UNIT` to within two sub-units
/// (room for rounding), as the caller computed it from an angle.
pub open spec fn is_direction(d: Vec2) -> bool {
    &&& within(d, UNIT as int)
    &&& (UNIT - 2) * (UNIT - 2) <= len_sq(d) <= (UNIT + 2) * (UNIT + 2)
}

pub open spec fn scaled(v: Vec2, k: int) -> Vec2 {
    Vec2 { x: (v.x * k) as i64, y: (v.y * k) as i64 }
}

pub open spec fn plus(a: Vec2, b: Vec2) -> Vec2 {
    Vec2 { x: (a.x + b.x) as i64, y: (a.y + b.y) as i64 }
}

#[derive(Clone, Copy, Debug)]
pub struct Player {
    pub pos: Vec2,
    pub vel: Vec2,
    /// Heading in microradians, `0` pointing up, growing clockwise.
    pub heading: i64,
    pub is_alive: bool,
}

/// Velocity after thrusting along `d` for `dt` milliseconds.
pub open spec fn pushed(v: Vec2, d: Vec2, dt: int) -> Vec2 {
    Vec2 {
        x: (v.x + trunc_div(d.x * ACC_RATE * dt, 1000)) as i64,
        y: (v.y + trunc_div(d.y * ACC_RATE * dt, 1000)) as i64,
    }
}

/// `v` unchanged when within the top speed, else rescaled down to it.
pub open spec fn speed_clamped(v: Vec2) -> Vec2 {
    if len_sq(v) > MAX_SPEED * MAX_SPEED {
        Vec2 {
            x: trunc_div(v.x * MAX_SPEED, root_up(len_sq(v))) as i64,
            y: trunc_div(v.y * MAX_SPEED, root_up(len_sq(v))) as i64,
        }
    } else {
        v
    }
}

pub open spec fn turns(k: int) -> int {
    k * FULL_TURN
}

/// `new_h` is heading `old_h` turned by `delta`, brought back into one full
/// turn.
pub open spec fn turned(old_h: int, delta: int, new_h: int) -> bool {
    &&& 0 <= new_h < FULL_TURN
    &&& exists|k: int| new_h == old_h + delta + #[trigger] turns(k)
}

impl Player {
    pub open spec fn wf(&self) -> bool {
        &&& in_reach(self.pos, PLAYER_RADIUS as int)
        &&& len_sq(self.vel) <= MAX_SPEED * MAX_SPEED
        &&& within(self.vel, MAX_SPEED as int)
        &&& 0 <= self.heading < FULL_TURN
    }

    /// A live ship at rest at `pos`, pointing up.
    pub fn new(pos: Vec2) -> (r: Player)
        requires
            in_reach(pos, PLAYER_RADIUS as int),
        ensures
            r.wf(),
            r.pos == pos,
            r.vel == (Vec2 { x: 0, y: 0 }),
            r.heading == 0,
            r.is_alive,
    {
        Player { pos, vel: Vec2 { x: 0, y: 0 }, heading: 0, is_alive: true }
    }

    /// Turns counter-clockwise for `dt` milliseconds.
    pub fn rotate_left(&mut self, dt: u32)
        requires
            old(self).wf(),
        ensures
            final(self).wf(),
            turned(old(self).heading as int, -(ROTATION_RATE * dt), final(self).heading as int),
            final(self).pos == old(self).pos,
            final(self).vel == old(self).vel,
            final(self).is_alive == old(self).is_alive,
    {
        let ghost h0 = self.heading as int;
        assert(ROTATION_RATE * dt <= 6000 * 0xffff_ffff) by (nonlinear_arith)
            requires
                0 <= dt <= 0xffff_ffff,
        ;
        let big: u64 = ROTATION_RATE as u64 * dt as u64;
        let d: i64 = (big % FULL_TURN as u64) as i64;
        proof {
            lemma_fundamental_div_mod(big as int, FULL_TURN as int);
        }
        let h: i64 = self.heading - d;
        if h < 0 {
            let hh: i64 = h + FULL_TURN;
            self.heading = hh;
            proof {
                let k = big as int / FULL_TURN as int + 1;
                assert(hh == h0 - (ROTATION_RATE * dt) + k * FULL_TURN)
                    by (nonlinear_arith)
                    requires
                        big == ROTATION_RATE * dt,
                        big == FULL_TURN * (big as int / FULL_TURN as int) + d,
                        hh == h0 - d + FULL_TURN,
                        k == big as int / FULL_TURN as int + 1,
                ;
                assert(k * FULL_TURN == turns(k));
            }
        } else {
            let hh: i64 = h;
            self.heading = hh;
            proof {
                let k = big as int / FULL_TURN as int;
                assert(hh == h0 - (ROTATION_RATE * dt) + k * FULL_TURN)
                    by (nonlinear_arith)
                    requires
                        big == ROTATION_RATE * dt,
                        big == FULL_TURN * (big as int / FULL_TURN as int) + d,
                        hh == h0 - d,
                        k == big as int / FULL_TURN as int,
                ;
                assert(k * FULL_TURN == turns(k));
            }
        }
    }

    /// Turns clockwise for `dt` milliseconds.
    pub fn rotate_right(&mut self, dt: u32)
        requires
            old(self).wf(),
        ensures
            final(self).wf(),
            turned(old(self).heading as int, ROTATION_RATE * dt, final(self).heading as int),
            final(self).pos == old(self).pos,
            final(self).vel == old(self).vel,
            final(self).is_alive == old(self).is_alive,
    {
        let ghost h0 = self.heading as int;
        assert(ROTATION_RATE * dt <= 6000 * 0xffff_ffff) by (nonlinear_arith)
            requires
                0 <= dt <= 0xffff_ffff,
        ;
        let big: u64 = ROTATION_RATE as u64 * dt as u64;
        let d: i64 = (big % FULL_TURN as u64) as i64;
        proof {
            lemma_fundamental_div_mod(big as int, FULL_TURN as int);
        }
        let h: i64 = self.heading + d;
        if h >= FULL_TURN {
            let hh: i64 = h - FULL_TURN;
            self.heading = hh;
            proof {
                let k = -(big as int / FULL_TURN as int) - 1;
                assert(hh == h0 + (ROTATION_RATE * dt) + k * FULL_TURN)
                    by (nonlinear_arith)
                    requires
                        big == ROTATION_RATE * dt,
                        big == FULL_TURN * (big as int / FULL_TURN as int) + d,
                        hh == h0 + d - FULL_TURN,
                        k == -(big as int / FULL_TURN as int) - 1,
                ;
                assert(k * FULL_TURN == turns(k));
            }
        } else {
            let hh: i64 = h;
            self.heading = hh;
            proof {
                let k = -(big as int / FULL_TURN as int);
                assert(hh == h0 + (ROTATION_RATE * dt) + k * FULL_TURN)
                    by (nonlinear_arith)
                    requires
                        big == ROTATION_RATE * dt,
                        big == FULL_TURN * (big as int / FULL_TURN as int) + d,
                        hh == h0 + d,
                        k == -(big as int / FULL_TURN as int),
                ;
                assert(k * FULL_TURN == turns(k));
            }
        }
    }
}

/// Rescaling by `m / c`, with `c` at least the length of `v`, gives a vector
/// no longer than `m`.
proof fn lemma_rescale_bound(v: Vec2, m: int, c: int)
    requires
        c > 0,
        m >= 0,
        len_sq(v) <= c * c,
    ensures
        ({
            let qx = trunc_div(v.x * m, c);
            let qy = trunc_div(v.y * m, c);
            &&& qx * qx + qy * qy <= m * m
            &&& abs(qx) <= m
            &&& abs(qy) <= m
        }),
{
    let qx = trunc_div(v.x * m, c);
    let qy = trunc_div(v.y * m, c);
    lemma_trunc_div_bound(v.x * m, c);
    lemma_trunc_div_bound(v.y * m, c);
    lemma_root_covers(v, c);
    lemma_abs_mul(v.x as int, m);
    lemma_abs_mul(v.y as int, m);
    assert(qx * qx * (c * c) + qy * qy * (c * c) <= len_sq(v) * (m * m)) by (nonlinear_arith)
        requires
            qx * qx * (c * c) <= (v.x * m) * (v.x * m),
            qy * qy * (c * c) <= (v.y * m) * (v.y * m),
            len_sq(v) == v.x * v.x + v.y * v.y,
    ;
    assert(len_sq(v) * (m * m) <= (c * c) * (m * m)) by (nonlinear_arith)
        requires
            len_sq(v) <= c * c,
    ;
    assert(qx * qx + qy * qy <= m * m) by (nonlinear_arith)
        requires
            qx * qx * (c * c) + qy * qy * (c * c) <= (c * c) * (m * m),
            c > 0,
    ;
    assert(abs(qx) <= m && abs(qy) <= m) by (nonlinear_arith)
        requires
            abs(qx) * c <= abs(v.x * m),
            abs(qy) * c <= abs(v.y * m),
            abs(v.x as int) <= c,
            abs(v.y as int) <= c,
            abs(v.x * m) == abs(v.x as int) * m,
            abs(v.y * m) == abs(v.y as int) * m,
            c > 0,
            m >= 0,
    ;
}

proof fn lemma_abs_mul(a: int, m: int)
    requires
        m >= 0,
    ensures
        abs(a * m) == abs(a) * m,
{
    assert(abs(a * m) == abs(a) * m) by (nonlinear_arith)
        requires
            m >= 0,
    ;
}

impl Player {
    /// Thrusts along `dir` (the heading as a vector) for `dt` milliseconds,
    /// then brings the speed back down to `MAX_SPEED` if it went over.
    pub fn accelerate(&mut self, dir: Vec2, dt: u32)
        requires
            old(self).wf(),
            is_direction(dir),
        ensures
            final(self).wf(),
            final(self).vel == speed_clamped(pushed(old(self).vel, dir, dt as int)),
            len_sq(final(self).vel) <= MAX_SPEED * MAX_SPEED,
            final(self).pos == old(self).pos,
            final(self).heading == old(self).heading,
            final(self).is_alive == old(self).is_alive,
    {
        proof {
            assert(abs(dir.x * ACC_RATE * dt) <= 0x80_0000_0000_0000 && abs(dir.y * ACC_RATE * dt)
                <= 0x80_0000_0000_0000) by (nonlinear_arith)
                requires
                    is_direction(dir),
                    0 <= dt < 0x1_0000_0000,
            ;
            lemma_trunc_div_bound(dir.x * ACC_RATE * dt, 1000);
            lemma_trunc_div_bound(dir.y * ACC_RATE * dt, 1000);
        }
        let ax: i128 = div_trunc(dir.x as i128 * ACC_RATE as i128 * dt as i128, 1000);
        let ay: i128 = div_trunc(dir.y as i128 * ACC_RATE as i128 * dt as i128, 1000);
        let v = Vec2 { x: (self.vel.x as i128 + ax) as i64, y: (self.vel.y as i128 + ay) as i64 };
        assert(v == pushed(self.vel, dir, dt as int));
        proof {
            lemma_len_sq_bound(v, 0x100_0000_0000_0000);
        }
        let n: u128 = (v.x as i128 * v.x as i128 + v.y as i128 * v.y as i128) as u128;
        if n > (MAX_SPEED as u128) * (MAX_SPEED as u128) {
            let c: u128 = sqrt_up(n);
            proof {
                assert(c > 0) by (nonlinear_arith)
                    requires
                        n as int <= c * c,
                        n > 0,
                ;
                lemma_abs_mul(v.x as int, MAX_SPEED as int);
                lemma_abs_mul(v.y as int, MAX_SPEED as int);
                lemma_rescale_bound(v, MAX_SPEED as int, c as int);
                lemma_root_covers(v, c as int);
                assert(abs(v.x * MAX_SPEED) <= 0x100_0000_0000_0000 * MAX_SPEED);
                assert(abs(v.y * MAX_SPEED) <= 0x100_0000_0000_0000 * MAX_SPEED);
            }
            let qx: i128 = div_trunc(v.x as i128 * MAX_SPEED as i128, c as i128);
            let qy: i128 = div_trunc(v.y as i128 * MAX_SPEED as i128, c as i128);
            self.vel = Vec2 { x: qx as i64, y: qy as i64 };
        } else {
            proof {
                lemma_root_covers(v, MAX_SPEED as int);
            }
            self.vel = v;
        }
    }

    /// Moves the ship for `dt` milliseconds, wrapping it round the field.
    pub fn update(&mut self, dt: u32)
        requires
            old(self).wf(),
        ensures
            final(self).wf(),
            final(self).pos == wrapped(
                moved(old(self).pos, old(self).vel, dt as int),
                PLAYER_RADIUS as int,
            ),
            final(self).vel == old(self).vel,
            final(self).heading == old(self).heading,
            final(self).is_alive == old(self).is_alive,
    {
        let p = move_by(self.pos, self.vel, dt);
        self.pos = wrap(p, PLAYER_RADIUS);
    }

    /// The ship's box, `2 * PLAYER_RADIUS` pixels square.
    pub fn get_rect(&self) -> (r: Rect)
        requires
            self.wf(),
        ensures
            r == centered_rect(self.pos, PLAYER_RADIUS * UNIT),
    {
        rect_around(self.pos, PLAYER_RADIUS)
    }

    /// A bullet leaving the ship's nose along `dir`, the heading as a vector.
    pub fn spawn_bullet(&self, dir: Vec2) -> (r: Bullet)
        requires
            self.wf(),
            is_direction(dir),
        ensures
            r.wf(),
            r == nose_bullet(*self, dir),
    {
        let pos = Vec2 { x: self.pos.x + dir.x * NOSE_OFFSET, y: self.pos.y + dir.y * NOSE_OFFSET };
        Bullet::new(pos, dir)
    }
}

#[derive(Clone, Copy, Debug)]
pub struct Bullet {
    pub pos: Vec2,
    pub vel: Vec2,
}

/// The bullet that a ship fires along `dir`: at its nose, at `BULLET_SPEED`.
pub open spec fn nose_bullet(p: Player, dir: Vec2) -> Bullet {
    Bullet {
        pos: plus(p.pos, scaled(dir, NOSE_OFFSET as int)),
        vel: scaled(dir, BULLET_SPEED as int),
    }
}

impl Bullet {
    pub open spec fn wf(&self) -> bool {
        &&& within(self.pos, POS_LIMIT as int)
        &&& within(self.vel, SPEED_LIMIT as int)
    }

    /// A bullet at `pos` flying along `dir` at `BULLET_SPEED`.
    pub fn new(pos: Vec2, dir: Vec2) -> (r: Bullet)
        requires
            within(pos, POS_LIMIT as int),
            is_direction(dir),
        ensures
            r.wf(),
            r.pos == pos,
            r.vel == scaled(dir, BULLET_SPEED as int),
    {
        Bullet { pos, vel: Vec2 { x: dir.x * BULLET_SPEED, y: dir.y * BULLET_SPEED } }
    }

    /// True iff the bullet has left the field grown by its radius.
    pub fn is_out_of_bounds(&self) -> (r: bool)
        ensures
            r == !in_reach(self.pos, BULLET_RADIUS as int),
    {
        let rr: i64 = BULLET_RADIUS as i64 * UNIT;
        self.pos.x < -rr || self.pos.y < -rr || self.pos.x > FIELD_WIDTH * UNIT + rr || self.pos.y
            > FIELD_HEIGHT * UNIT + rr
    }

    /// Moves the bullet for `dt` milliseconds; bullets do not wrap.
    pub fn update(&mut self, dt: u32)
        requires
            old(self).wf(),
        ensures
            final(self).pos == moved(old(self).pos, old(self).vel, dt as int),
            final(self).vel == old(self).vel,
            within(final(self).vel, SPEED_LIMIT as int),
    {
        self.pos = move_by(self.pos, self.vel, dt);
    }

    pub fn get_rect(&self) -> (r: Rect)
        requires
            self.wf(),
        ensures
            r == centered_rect(self.pos, BULLET_RADIUS * UNIT),
    {
        rect_around(self.pos, BULLET_RADIUS)
    }
}

/// Whether an asteroid has been shot this frame, and by what.
#[derive(Clone, Copy, PartialEq, Eq, Structural, Debug)]
pub enum HitState {
    NotHit,
    /// Shot by a bullet whose velocity was `hit_vec`.
    Hit { hit_vec: Vec2 },
}

#[derive(Clone, Copy, Debug)]
pub struct Asteroid {
    pub pos: Vec2,
    pub vel: Vec2,
    /// Radius in pixels.
    pub radius: u32,
    pub was_hit: HitState,
}

/// Smallest and largest radius of a freshly spawned asteroid (the largest
/// excluded), in pixels.
pub const SPAWN_MIN_RADIUS: u32 = 20;

pub const SPAWN_MAX_RADIUS: u32 = 100;

/// Speed band of a freshly spawned asteroid (upper end excluded), in
/// sub-units per second.
pub const SPAWN_MIN_SPEED: u64 = 30_000;

pub const SPAWN_MAX_SPEED: u64 = 90_000;

/// Fragments keep this many tenths of their parent's velocity.
pub const FRAGMENT_KEEP_TENTHS: i64 = 7;

pub open spec fn saturate(a: int) -> int {
    if a > SPEED_LIMIT {
        SPEED_LIMIT as int
    } else if a < -SPEED_LIMIT {
        -SPEED_LIMIT
    } else {
        a
    }
}

/// The impact vector of a shot asteroid; zero for one that was not shot.
pub open spec fn impact(h: HitState) -> Vec2 {
    match h {
        HitState::Hit { hit_vec } => hit_vec,
        HitState::NotHit => Vec2 { x: 0, y: 0 },
    }
}

/// `v` turned by a quarter turn in the positive sense: `(x, y) -> (-y, x)`.
pub open spec fn quarter_plus(v: Vec2) -> Vec2 {
    Vec2 { x: -v.y as i64, y: v.x }
}

/// `v` turned by a quarter turn in the negative sense: `(x, y) -> (y, -x)`.
pub open spec fn quarter_minus(v: Vec2) -> Vec2 {
    Vec2 { x: v.y, y: -v.x as i64 }
}

pub open spec fn negated(v: Vec2) -> Vec2 {
    Vec2 { x: -v.x as i64, y: -v.y as i64 }
}

/// A fragment's velocity: the parent's speed along `dir`, plus seven tenths
/// of the parent's velocity, each component held within `SPEED_LIMIT`.
pub open spec fn fragment_vel(v: Vec2, dir: Vec2) -> Vec2 {
    let m = root_up(len_sq(v));
    Vec2 {
        x: saturate(trunc_div(m * dir.x, UNIT as int) + trunc_div(v.x * FRAGMENT_KEEP_TENTHS, 10))
            as i64,
        y: saturate(trunc_div(m * dir.y, UNIT as int) + trunc_div(v.y * FRAGMENT_KEEP_TENTHS, 10))
            as i64,
    }
}

/// The fragment of `a` deflected along `dir`: half the radius, pushed out
/// from the parent's centre by that radius along its own velocity.
pub open spec fn fragment(a: Asteroid, dir: Vec2) -> Asteroid {
    let v = fragment_vel(a.vel, dir);
    Asteroid {
        pos: plus(a.pos, resized(v, (a.radius / 2) * UNIT)),
        vel: v,
        radius: a.radius / 2,
        was_hit: HitState::NotHit,
    }
}

/// What a shot asteroid breaks into: nothing once half its radius is under
/// `ASTEROID_MIN_RADIUS`, else two fragments deflected a quarter turn either
/// way from the reversed shot direction.
pub open spec fn splits(a: Asteroid) -> Seq<Asteroid> {
    let back = negated(resized(impact(a.was_hit), UNIT as int));
    if a.radius / 2 < ASTEROID_MIN_RADIUS {
        seq![]
    } else {
        seq![fragment(a, quarter_plus(back)), fragment(a, quarter_minus(back))]
    }
}

/// An asteroid launched along `dir` at `speed`, placed just outside the
/// field on the side it moves away from, so that it drifts in.
pub open spec fn launched(dir: Vec2, speed: int, radius: int) -> Asteroid {
    let vel = Vec2 {
        x: trunc_div(dir.x * speed, UNIT as int) as i64,
        y: trunc_div(dir.y * speed, UNIT as int) as i64,
    };
    Asteroid {
        pos: Vec2 {
            x: (if vel.x > 0 {
                -radius * UNIT
            } else {
                (FIELD_WIDTH + radius) * UNIT
            }) as i64,
            y: (if vel.y > 0 {
                -radius * UNIT
            } else {
                (FIELD_HEIGHT + radius) * UNIT
            }) as i64,
        },
        vel,
        radius: radius as u32,
        was_hit: HitState::NotHit,
    }
}

proof fn lemma_root_up_small(n: int, c: int)
    requires
        is_root_up(n, c),
        n <= 0x2000_0000_0000_0000,
    ensures
        c <= 0x8000_0000,
{
    if c > 0x8000_0000 {
        lemma_square_monotone(0x8000_0000, c - 1);
    }
}

impl Asteroid {
    pub open spec fn wf(&self) -> bool {
        &&& within(self.pos, POS_LIMIT as int)
        &&& within(self.vel, SPEED_LIMIT as int)
        &&& ASTEROID_MIN_RADIUS <= self.radius <= ASTEROID_MAX_RADIUS
        &&& within(impact(self.was_hit), SPEED_LIMIT as int)
    }

    /// An asteroid that has not been shot.
    pub fn new(pos: Vec2, vel: Vec2, radius: u32) -> (r: Asteroid)
        ensures
            r == (Asteroid { pos, vel, radius, was_hit: HitState::NotHit }),
    {
        Asteroid { pos, vel, radius, was_hit: HitState::NotHit }
    }

    /// Moves the asteroid for `dt` milliseconds, wrapping it round the field.
    pub fn update(&mut self, dt: u32)
        requires
            old(self).wf(),
        ensures
            final(self).wf(),
            final(self).pos == wrapped(
                moved(old(self).pos, old(self).vel, dt as int),
                old(self).radius as int,
            ),
            in_reach(final(self).pos, final(self).radius as int),
            final(self).vel == old(self).vel,
            final(self).radius == old(self).radius,
            final(self).was_hit == old(self).was_hit,
    {
        let p = move_by(self.pos, self.vel, dt);
        self.pos = wrap(p, self.radius);
    }

    pub fn get_rect(&self) -> (r: Rect)
        requires
            self.wf(),
        ensures
            r == centered_rect(self.pos, self.radius * UNIT),
    {
        rect_around(self.pos, self.radius)
    }

    fn fragment_toward(&self, m: i128, dir: Vec2) -> (r: Asteroid)
        requires
            self.wf(),
            within(self.pos, POS_LIMIT / 2),
            self.radius / 2 >= ASTEROID_MIN_RADIUS,
            m == root_up(len_sq(self.vel)),
            0 <= m <= 0x8000_0000,
            within(dir, UNIT as int),
        ensures
            r == fragment(*self, dir),
            r.wf(),
    {
        proof {
            lemma_trunc_div_bound(m * dir.x, UNIT as int);
            lemma_trunc_div_bound(m * dir.y, UNIT as int);
            lemma_trunc_div_bound(self.vel.x * FRAGMENT_KEEP_TENTHS, 10);
            lemma_trunc_div_bound(self.vel.y * FRAGMENT_KEEP_TENTHS, 10);
            assert(abs(m * dir.x) <= 0x8000_0000 * 1000 && abs(m * dir.y) <= 0x8000_0000 * 1000)
                by (nonlinear_arith)
                requires
                    0 <= m <= 0x8000_0000,
                    within(dir, UNIT as int),
            ;
        }
        let ux: i128 = div_trunc(m * dir.x as i128, UNIT as i128) + div_trunc(
            self.vel.x as i128 * FRAGMENT_KEEP_TENTHS as i128,
            10,
        );
        let uy: i128 = div_trunc(m * dir.y as i128, UNIT as i128) + div_trunc(
            self.vel.y as i128 * FRAGMENT_KEEP_TENTHS as i128,
            10,
        );
        let lim: i128 = SPEED_LIMIT as i128;
        let vx: i64 = if ux > lim {
            SPEED_LIMIT
        } else if ux < -lim {
            -SPEED_LIMIT
        } else {
            ux as i64
        };
        let vy: i64 = if uy > lim {
            SPEED_LIMIT
        } else if uy < -lim {
            -SPEED_LIMIT
        } else {
            uy as i64
        };
        let v = Vec2 { x: vx, y: vy };
        assert(v == fragment_vel(self.vel, dir));
        let new_radius: u32 = self.radius / 2;
        let off = resize(v, new_radius as i64 * UNIT);
        Asteroid {
            pos: Vec2 { x: self.pos.x + off.x, y: self.pos.y + off.y },
            vel: v,
            radius: new_radius,
            was_hit: HitState::NotHit,
        }
    }

    /// Breaks a shot asteroid into its fragments (see `splits`): each of the
    /// two has half the radius and sits that radius away from the parent's
    /// centre along its own direction of travel.
    pub fn get_splits(&self) -> (r: Vec<Asteroid>)
        requires
            self.was_hit is Hit,
            self.wf(),
            within(self.pos, POS_LIMIT / 2),
        ensures
            r@ == splits(*self),
            r@.len() == (if self.radius / 2 < ASTEROID_MIN_RADIUS {
                0int
            } else {
                2int
            }),
            forall|i: int|
                0 <= i < r@.len() ==> {
                    &&& (#[trigger] r@[i]).wf()
                    &&& r@[i].radius == self.radius / 2
                    &&& r@[i].pos == plus(self.pos, resized(r@[i].vel, (self.radius / 2) * UNIT))
                },
    {
        let hit: Vec2 = match self.was_hit {
            HitState::Hit { hit_vec } => hit_vec,
            HitState::NotHit => Vec2 { x: 0, y: 0 },
        };
        if self.radius / 2 < ASTEROID_MIN_RADIUS {
            let empty: Vec<Asteroid> = Vec::new();
            assert(empty@ =~= splits(*self));
            return empty;
        }
        let shot = resize(hit, UNIT);
        let right = Vec2 { x: shot.y, y: -shot.x };
        let left = Vec2 { x: -shot.y, y: shot.x };
        proof {
            lemma_len_sq_bound(self.vel, SPEED_LIMIT as int);
        }
        let n: u128 = (self.vel.x as i128 * self.vel.x as i128 + self.vel.y as i128
            * self.vel.y as i128) as u128;
        let c: u128 = sqrt_up(n);
        proof {
            lemma_root_up_small(n as int, c as int);
        }
        let first = self.fragment_toward(c as i128, right);
        let second = self.fragment_toward(c as i128, left);
        let r = vec![first, second];
        assert(r@ =~= splits(*self));
        r
    }
}

/// An asteroid moving along `dir` at `speed`, just outside the edge it moves
/// away from.
pub fn launch_asteroid(dir: Vec2, speed: u64, radius: u32) -> (r: Asteroid)
    requires
        is_direction(dir),
        speed <= SPEED_LIMIT,
        ASTEROID_MIN_RADIUS <= radius <= ASTEROID_MAX_RADIUS,
    ensures
        r == launched(dir, speed as int, radius as int),
        r.wf(),
{
    proof {
        assert(abs(dir.x * speed) <= 1000 * SPEED_LIMIT && abs(dir.y * speed) <= 1000 * SPEED_LIMIT)
            by (nonlinear_arith)
            requires
                is_direction(dir),
                0 <= speed <= SPEED_LIMIT,
        ;
        lemma_trunc_div_bound(dir.x * speed, UNIT as int);
        lemma_trunc_div_bound(dir.y * speed, UNIT as int);
    }
    let vx: i128 = div_trunc(dir.x as i128 * speed as i128, UNIT as i128);
    let vy: i128 = div_trunc(dir.y as i128 * speed as i128, UNIT as i128);
    let vel = Vec2 { x: vx as i64, y: vy as i64 };
    let rr: i64 = radius as i64 * UNIT;
    let x: i64 = if vel.x > 0 {
        -rr
    } else {
        FIELD_WIDTH * UNIT + rr
    };
    let y: i64 = if vel.y > 0 {
        -rr
    } else {
        FIELD_HEIGHT * UNIT + rr
    };
    Asteroid::new(Vec2 { x, y }, vel, radius)
}

/// Relies on rand's `Rng::gen_range` on the thread-local generator: a value
/// `r` with `lo <= r < hi`; it panics when `lo >= hi`.
#[verifier::external_body]
fn random_range(lo: u64, hi: u64) -> (r: u64)
    requires
        lo < hi,
    ensures
        lo <= r < hi,
{
    rand::thread_rng().gen_range(lo, hi)
}

/// A new asteroid moving along `dir`, with a random speed and radius drawn
/// from the spawn bands.
pub fn spawn_asteroid(dir: Vec2) -> (r: Asteroid)
    requires
        is_direction(dir),
    ensures
        r.wf(),
        SPAWN_MIN_RADIUS <= r.radius < SPAWN_MAX_RADIUS,
        exists|s: int|
            SPAWN_MIN_SPEED <= s < SPAWN_MAX_SPEED && r == #[trigger] launched(
                dir,
                s,
                r.radius as int,
            ),
{
    let speed = random_range(SPAWN_MIN_SPEED, SPAWN_MAX_SPEED);
    let radius = random_range(SPAWN_MIN_RADIUS as u64, SPAWN_MAX_RADIUS as u64) as u32;
    launch_asteroid(dir, speed, radius)
}

#[derive(Clone, Copy, Debug)]
pub struct Particle {
    pub pos: Vec2,
    pub vel: Vec2,
    /// Milliseconds since the particle was made.
    pub age_ms: u64,
}

impl Particle {
    pub open spec fn wf(&self) -> bool {
        &&& within(self.pos, POS_LIMIT as int)
        &&& within(self.vel, SPEED_LIMIT as int)
        &&& self.age_ms < PARTICLE_LIFETIME_MS
    }

    pub fn new(pos: Vec2, vel: Vec2) -> (r: Particle)
        ensures
            r == (Particle { pos, vel, age_ms: 0 }),
    {
        Particle { pos, vel, age_ms: 0 }
    }

    /// Moves the particle for `dt` milliseconds and ages it.
    pub fn update(&mut self, dt: u32)
        requires
            old(self).wf(),
        ensures
            final(self).pos == moved(old(self).pos, old(self).vel, dt as int),
            final(self).vel == old(self).vel,
            final(self).age_ms == old(self).age_ms + dt,
    {
        self.pos = move_by(self.pos, self.vel, dt);
        self.age_ms = self.age_ms + dt as u64;
    }

    pub open spec fn is_expired_spec(&self) -> bool {
        self.age_ms >= PARTICLE_LIFETIME_MS || !in_reach(self.pos, PARTICLE_RADIUS as int)
    }

    /// True iff the particle has lived out its lifetime or left the field.
    pub fn is_expired(&self) -> (r: bool)
        ensures
            r == self.is_expired_spec(),
    {
        let rr: i64 = PARTICLE_RADIUS as i64 * UNIT;
        self.age_ms >= PARTICLE_LIFETIME_MS || self.pos.x < -rr || self.pos.y < -rr || self.pos.x
            > FIELD_WIDTH * UNIT + rr || self.pos.y > FIELD_HEIGHT * UNIT + rr
    }

    pub fn get_rect(&self) -> (r: Rect)
        requires
            self.wf(),
        ensures
            r == centered_rect(self.pos, PARTICLE_RADIUS * UNIT),
    {
        rect_around(self.pos, PARTICLE_RADIUS)
    }
}

/// Splitting a shot asteroid whose half radius reaches `ASTEROID_MIN_RADIUS`
/// yields exactly two fragments of half the radius, each pushed out from the
/// parent's centre by that radius along its own velocity; below that size it
/// yields none.
pub proof fn split_laws(a: Asteroid)
    requires
        a.was_hit is Hit,
    ensures
        a.radius / 2 >= ASTEROID_MIN_RADIUS ==> {
            &&& splits(a).len() == 2
            &&& forall|i: int|
                0 <= i < 2 ==> {
                    &&& (#[trigger] splits(a)[i]).radius == a.radius / 2
                    &&& splits(a)[i].pos == plus(a.pos, resized(splits(a)[i].vel, (a.radius / 2) * UNIT))
                    &&& splits(a)[i].was_hit is NotHit
                }
        },
        a.radius / 2 < ASTEROID_MIN_RADIUS ==> splits(a).len() == 0,
{
}

pub open spec fn dot(a: Vec2, b: Vec2) -> int {
    a.x * b.x + a.y * b.y
}

/// The two fragments are deflected along opposite directions, each a quarter
/// turn from the reversed shot direction and so square to the shot, and each
/// keeps `FRAGMENT_KEEP_TENTHS` tenths of the parent's velocity on top of the
/// parent's speed along its direction.
pub proof fn split_deflection(a: Asteroid)
    requires
        a.was_hit is Hit,
        a.radius / 2 >= ASTEROID_MIN_RADIUS,
    ensures
        ({
            let shot = resized(impact(a.was_hit), UNIT as int);
            let right = quarter_plus(negated(shot));
            let left = quarter_minus(negated(shot));
            &&& right.x == -left.x && right.y == -left.y
            &&& dot(right, shot) == 0
            &&& dot(left, shot) == 0
            &&& splits(a)[0].vel == fragment_vel(a.vel, right)
            &&& splits(a)[1].vel == fragment_vel(a.vel, left)
        }),
{
    let shot = resized(impact(a.was_hit), UNIT as int);
    lemma_resized_within(impact(a.was_hit), UNIT as int);
    assert(dot(quarter_plus(negated(shot)), shot) == 0) by (nonlinear_arith)
        requires
            quarter_plus(negated(shot)).x == shot.y,
            quarter_plus(negated(shot)).y == -shot.x,
    ;
    assert(dot(quarter_minus(negated(shot)), shot) == 0) by (nonlinear_arith)
        requires
            quarter_minus(negated(shot)).x == -shot.y,
            quarter_minus(negated(shot)).y == shot.x,
    ;
}

} // verus!
