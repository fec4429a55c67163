use crate::entities::{
    PLAYER_RADIUS, is_direction, nose_bullet, turns, launched, SPAWN_MIN_RADIUS, SPAWN_MAX_RADIUS,
    SPAWN_MIN_SPEED, SPAWN_MAX_SPEED, pushed, spawn_asteroid, speed_clamped, splits, turned, Asteroid, Bullet, HitState,
    Particle, Player, BULLET_RADIUS, MAX_SPEED, PARTICLE_LIFETIME_MS, PARTICLE_RADIUS,
    ROTATION_RATE,
};
use crate::geometry::{
    are_colliding, centered_rect, in_reach, wrapped, len_sq, moved, overlap, within, Rect, Vec2,
    FIELD_HEIGHT, FIELD_WIDTH, POS_LIMIT, SPEED_LIMIT, UNIT,
};
use vstd::prelude::*;

verus! {

/// Time between automatic asteroid spawns, in milliseconds.
pub const SPAWN_INTERVAL_MS: u64 = 5000;

/// Particles made where a bullet hits an asteroid.
pub const HIT_BURST: u32 = 10;

/// Particles made where the ship is destroyed.
pub const DEATH_BURST: u32 = 100;

/// The cues that the simulation asks the audio sink to play.
#[derive(Clone, Copy, PartialEq, Eq, Structural, Debug)]
pub enum Sound {
    Shoot,
    Explode,
    Hit,
}

/// What one frame produced, for the presentation and audio sinks.
pub struct FrameReport {
    /// Where bullets struck asteroids, one entry per hit, in order.
    pub hits: Vec<Vec2>,
    /// The ship was destroyed during this frame.
    pub player_died: bool,
    /// A new asteroid entered play during this frame.
    pub spawned: bool,
}

pub struct Game {
    pub player: Player,
    pub bullets: Vec<Bullet>,
    pub asteroids: Vec<Asteroid>,
    pub particles: Vec<Particle>,
    pub score: u64,
    /// Milliseconds since the last automatic spawn.
    pub since_spawn_ms: u64,
}

/// The asteroid in play when a game starts: at (100, 100) pixels, moving at
/// (10, 30) pixels per second, radius 30.
pub open spec fn first_asteroid() -> Asteroid {
    Asteroid {
        pos: Vec2 { x: 100_000, y: 100_000 },
        vel: Vec2 { x: 10_000, y: 30_000 },
        radius: 30,
        was_hit: HitState::NotHit,
    }
}

/// The centre of the field, where the ship starts.
pub open spec fn field_centre() -> Vec2 {
    Vec2 { x: (FIELD_WIDTH * UNIT / 2) as i64, y: (FIELD_HEIGHT * UNIT / 2) as i64 }
}

/// Index of the first asteroid not yet shot whose box meets `r`.
pub open spec fn is_first_target(s: Seq<Asteroid>, r: Rect, j: int) -> bool {
    &&& 0 <= j < s.len()
    &&& s[j].was_hit is NotHit
    &&& overlap(r, centered_rect(s[j].pos, s[j].radius * UNIT))
    &&& forall|k: int|
        0 <= k < j ==> !((#[trigger] s[k]).was_hit is NotHit && overlap(
            r,
            centered_rect(s[k].pos, s[k].radius * UNIT),
        ))
}

pub open spec fn no_target(s: Seq<Asteroid>, r: Rect) -> bool {
    forall|k: int|
        0 <= k < s.len() ==> !((#[trigger] s[k]).was_hit is NotHit && overlap(
            r,
            centered_rect(s[k].pos, s[k].radius * UNIT),
        ))
}

/// The asteroids that were not shot, in order.
pub open spec fn kept(s: Seq<Asteroid>) -> Seq<Asteroid>
    decreases s.len(),
{
    if s.len() == 0 {
        seq![]
    } else {
        let last = s.last();
        kept(s.drop_last()) + if last.was_hit is NotHit {
            seq![last]
        } else {
            seq![]
        }
    }
}

/// The fragments of the asteroids that were shot, in order.
pub open spec fn shards(s: Seq<Asteroid>) -> Seq<Asteroid>
    decreases s.len(),
{
    if s.len() == 0 {
        seq![]
    } else {
        let last = s.last();
        shards(s.drop_last()) + if last.was_hit is NotHit {
            seq![]
        } else {
            splits(last)
        }
    }
}

/// The particles still alive after ageing, in order.
pub open spec fn alive_particles(s: Seq<Particle>) -> Seq<Particle>
    decreases s.len(),
{
    if s.len() == 0 {
        seq![]
    } else {
        let p = s.last();
        alive_particles(s.drop_last()) + if p.age_ms >= PARTICLE_LIFETIME_MS || !in_reach(
            p.pos,
            PARTICLE_RADIUS as int,
        ) {
            seq![]
        } else {
            seq![p]
        }
    }
}

pub open spec fn all_asteroids_wf(s: Seq<Asteroid>) -> bool {
    forall|i: int| 0 <= i < s.len() ==> (#[trigger] s[i]).wf()
}

/// An asteroid that a bullet with box `r` strikes: not yet shot, and its box
/// meets `r`.
pub open spec fn is_target(a: Asteroid, r: Rect) -> bool {
    a.was_hit is NotHit && overlap(r, centered_rect(a.pos, a.radius * UNIT))
}

/// Index of the first target in `s` from index `k` on.
pub open spec fn first_hit(s: Seq<Asteroid>, r: Rect, k: int) -> Option<int>
    decreases s.len() - k,
{
    if k < 0 || k >= s.len() {
        None
    } else if is_target(s[k], r) {
        Some(k)
    } else {
        first_hit(s, r, k + 1)
    }
}

/// Finds the first asteroid not yet shot whose box meets `r`.
pub fn first_target(asteroids: &Vec<Asteroid>, r: Rect) -> (res: Option<usize>)
    requires
        all_asteroids_wf(asteroids@),
    ensures
        match res {
            Some(j) => is_first_target(asteroids@, r, j as int),
            None => no_target(asteroids@, r),
        },
        res matches Some(j) ==> first_hit(asteroids@, r, 0) == Some(j as int),
        res is None ==> first_hit(asteroids@, r, 0) is None,
{
    let mut j: usize = 0;
    while j < asteroids.len()
        invariant
            j <= asteroids@.len(),
            all_asteroids_wf(asteroids@),
            forall|k: int|
                0 <= k < j ==> !((#[trigger] asteroids@[k]).was_hit is NotHit && overlap(
                    r,
                    centered_rect(asteroids@[k].pos, asteroids@[k].radius * UNIT),
                )),
            first_hit(asteroids@, r, 0) == first_hit(asteroids@, r, j as int),
        decreases asteroids.len() - j,
    {
        let a = &asteroids[j];
        let not_hit = match a.was_hit {
            HitState::NotHit => true,
            HitState::Hit { .. } => false,
        };
        if not_hit && are_colliding(r, a.get_rect()) {
            return Some(j);
        }
        j = j + 1;
    }
    None
}

/// Replaces every shot asteroid by its fragments: the asteroids that were not
/// shot keep their order, and the fragments follow them.
pub fn apply_removals(asteroids: &Vec<Asteroid>) -> (r: Vec<Asteroid>)
    requires
        all_asteroids_wf(asteroids@),
        forall|i: int| 0 <= i < asteroids@.len() ==> within(#[trigger] asteroids@[i].pos, POS_LIMIT / 2),
    ensures
        r@ == kept(asteroids@) + shards(asteroids@),
        all_asteroids_wf(r@),
        forall|i: int| 0 <= i < r@.len() ==> (#[trigger] r@[i]).was_hit is NotHit,
{
    let mut keep: Vec<Asteroid> = Vec::new();
    let mut frags: Vec<Asteroid> = Vec::new();
    let mut i: usize = 0;
    while i < asteroids.len()
        invariant
            i <= asteroids@.len(),
            all_asteroids_wf(asteroids@),
            forall|k: int| 0 <= k < asteroids@.len() ==> within(#[trigger] asteroids@[k].pos, POS_LIMIT / 2),
            keep@ == kept(asteroids@.subrange(0, i as int)),
            frags@ == shards(asteroids@.subrange(0, i as int)),
            all_asteroids_wf(keep@),
            all_asteroids_wf(frags@),
            forall|k: int| 0 <= k < keep@.len() ==> (#[trigger] keep@[k]).was_hit is NotHit,
            forall|k: int| 0 <= k < frags@.len() ==> (#[trigger] frags@[k]).was_hit is NotHit,
        decreases asteroids.len() - i,
    {
        let a = asteroids[i];
        proof {
            let next = asteroids@.subrange(0, i + 1);
            assert(next.drop_last() =~= asteroids@.subrange(0, i as int));
            assert(next.last() == a);
        }
        match a.was_hit {
            HitState::NotHit => {
                keep.push(a);
            },
            HitState::Hit { .. } => {
                let mut parts = a.get_splits();
                proof {
                    assert forall|k: int| 0 <= k < parts@.len() implies (#[trigger] parts@[k]).was_hit is NotHit by {
                        assert(parts@ == splits(a));
                    }
                }
                frags.append(&mut parts);
            },
        }
        i = i + 1;
    }
    assert(asteroids@.subrange(0, asteroids@.len() as int) =~= asteroids@);
    keep.append(&mut frags);
    keep
}

/// `a + b`, held at `u64::MAX`.
pub open spec fn saturating_sum(a: int, b: int) -> int {
    if a + b > u64::MAX {
        u64::MAX as int
    } else {
        a + b
    }
}

impl Game {
    pub open spec fn wf(&self) -> bool {
        &&& self.player.wf()
        &&& forall|i: int| 0 <= i < self.bullets@.len() ==> (#[trigger] self.bullets@[i]).wf()
        &&& all_asteroids_wf(self.asteroids@)
        &&& forall|i: int| 0 <= i < self.particles@.len() ==> (#[trigger] self.particles@[i]).wf()
        &&& self.since_spawn_ms <= SPAWN_INTERVAL_MS
    }

    /// A live ship at rest in the centre, one asteroid drifting in from the
    /// top left, no bullets, no particles, no score.
    pub fn new() -> (r: Game)
        ensures
            r.wf(),
            r.player.pos == field_centre(),
            r.player.is_alive,
            r.player.vel == (Vec2 { x: 0, y: 0 }),
            r.bullets@.len() == 0,
            r.particles@.len() == 0,
            r.asteroids@ == seq![first_asteroid()],
            r.score == 0,
            r.since_spawn_ms == 0,
    {
        let mut asteroids: Vec<Asteroid> = Vec::new();
        asteroids.push(
            Asteroid::new(
                Vec2 { x: 100 * UNIT, y: 100 * UNIT },
                Vec2 { x: 10 * UNIT, y: 30 * UNIT },
                30,
            ),
        );
        assert(asteroids@ =~= seq![first_asteroid()]);
        Game {
            player: Player::new(Vec2 { x: FIELD_WIDTH * UNIT / 2, y: FIELD_HEIGHT * UNIT / 2 }),
            bullets: Vec::new(),
            asteroids,
            particles: Vec::new(),
            score: 0,
            since_spawn_ms: 0,
        }
    }

    /// Fires a bullet along `dir` (the ship's heading as a vector) if the
    /// ship is alive; returns whether it fired.
    pub fn fire(&mut self, dir: Vec2) -> (fired: bool)
        requires
            old(self).wf(),
            is_direction(dir),
        ensures
            final(self).wf(),
            fired == old(self).player.is_alive,
            fired ==> final(self).bullets@ == old(self).bullets@.push(nose_bullet(old(self).player, dir)),
            !fired ==> final(self).bullets@ == old(self).bullets@,
            final(self).player == old(self).player,
            final(self).asteroids@ == old(self).asteroids@,
            final(self).particles@ == old(self).particles@,
            final(self).score == old(self).score,
            final(self).since_spawn_ms == old(self).since_spawn_ms,
    {
        if self.player.is_alive {
            let b = self.player.spawn_bullet(dir);
            self.bullets.push(b);
            true
        } else {
            false
        }
    }

    /// Brings a destroyed ship back, at rest in the centre and pointing up;
    /// returns whether it did. A live ship is left alone.
    pub fn restart(&mut self) -> (restarted: bool)
        requires
            old(self).wf(),
        ensures
            final(self).wf(),
            restarted == !old(self).player.is_alive,
            restarted ==> final(self).player == (Player {
                pos: field_centre(),
                vel: Vec2 { x: 0, y: 0 },
                heading: 0,
                is_alive: true,
            }),
            !restarted ==> final(self).player == old(self).player,
            final(self).bullets@ == old(self).bullets@,
            final(self).asteroids@ == old(self).asteroids@,
            final(self).particles@ == old(self).particles@,
            final(self).score == old(self).score,
            final(self).since_spawn_ms == old(self).since_spawn_ms,
    {
        if !self.player.is_alive {
            self.player = Player::new(Vec2 { x: FIELD_WIDTH * UNIT / 2, y: FIELD_HEIGHT * UNIT / 2 });
            true
        } else {
            false
        }
    }

    /// Turns a live ship for `dt` milliseconds: left, right, both or neither.
    pub fn steer(&mut self, left: bool, right: bool, dt: u32)
        requires
            old(self).wf(),
        ensures
            final(self).wf(),
            final(self).player.pos == old(self).player.pos,
            final(self).player.vel == old(self).player.vel,
            final(self).player.is_alive == old(self).player.is_alive,
            !old(self).player.is_alive ==> final(self).player == old(self).player,
            !left && !right ==> final(self).player == old(self).player,
            old(self).player.is_alive && left && right ==> turned(
                old(self).player.heading as int,
                0,
                final(self).player.heading as int,
            ),
            old(self).player.is_alive && left && !right ==> turned(
                old(self).player.heading as int,
                -(ROTATION_RATE * dt),
                final(self).player.heading as int,
            ),
            old(self).player.is_alive && right && !left ==> turned(
                old(self).player.heading as int,
                ROTATION_RATE * dt,
                final(self).player.heading as int,
            ),
            final(self).bullets@ == old(self).bullets@,
            final(self).asteroids@ == old(self).asteroids@,
            final(self).particles@ == old(self).particles@,
            final(self).score == old(self).score,
            final(self).since_spawn_ms == old(self).since_spawn_ms,
    {
        if self.player.is_alive {
            if left {
                self.player.rotate_left(dt);
            }
            let ghost h1 = self.player.heading as int;
            if right {
                self.player.rotate_right(dt);
            }
            proof {
                if left && right {
                    let h0 = old(self).player.heading as int;
                    let h2 = self.player.heading as int;
                    let k1 = choose|k: int| h1 == h0 + -(ROTATION_RATE * dt) + #[trigger] turns(k);
                    let k2 = choose|k: int| h2 == h1 + ROTATION_RATE * dt + #[trigger] turns(k);
                    assert(h2 == h0 + 0 + turns(k1 + k2));
                }
            }
        }
    }

    /// Thrusts a live ship along `dir` (its heading as a vector) for `dt`
    /// milliseconds; the speed never exceeds `MAX_SPEED`.
    pub fn thrust(&mut self, dir: Vec2, dt: u32)
        requires
            old(self).wf(),
            is_direction(dir),
        ensures
            final(self).wf(),
            len_sq(final(self).player.vel) <= MAX_SPEED * MAX_SPEED,
            old(self).player.is_alive ==> final(self).player.vel == speed_clamped(
                pushed(old(self).player.vel, dir, dt as int),
            ),
            !old(self).player.is_alive ==> final(self).player == old(self).player,
            final(self).player.pos == old(self).player.pos,
            final(self).player.heading == old(self).player.heading,
            final(self).player.is_alive == old(self).player.is_alive,
            final(self).bullets@ == old(self).bullets@,
            final(self).asteroids@ == old(self).asteroids@,
            final(self).particles@ == old(self).particles@,
            final(self).score == old(self).score,
            final(self).since_spawn_ms == old(self).since_spawn_ms,
    {
        if self.player.is_alive {
            self.player.accelerate(dir, dt);
        }
    }

    /// Adds one particle at `pos`, of age zero, for each velocity in
    /// `vels[from..to]`.
    fn push_burst(&mut self, pos: Vec2, vels: &Vec<Vec2>, from: usize, to: usize)
        requires
            old(self).wf(),
            within(pos, POS_LIMIT as int),
            from <= to <= vels@.len(),
            forall|i: int| 0 <= i < vels@.len() ==> within(#[trigger] vels@[i], SPEED_LIMIT as int),
        ensures
            final(self).wf(),
            final(self).particles@ == old(self).particles@ + burst(pos, vels@.subrange(from as int, to as int)),
            final(self).player == old(self).player,
            final(self).bullets@ == old(self).bullets@,
            final(self).asteroids@ == old(self).asteroids@,
            final(self).score == old(self).score,
            final(self).since_spawn_ms == old(self).since_spawn_ms,
    {
        let ghost start = self.particles@;
        let mut i: usize = from;
        while i < to
            invariant
                from <= i <= to <= vels@.len(),
                self.wf(),
                forall|k: int| 0 <= k < vels@.len() ==> within(#[trigger] vels@[k], SPEED_LIMIT as int),
                within(pos, POS_LIMIT as int),
                self.particles@ == start + burst(pos, vels@.subrange(from as int, i as int)),
                self.player == old(self).player,
                self.bullets@ == old(self).bullets@,
                self.asteroids@ == old(self).asteroids@,
                self.score == old(self).score,
                self.since_spawn_ms == old(self).since_spawn_ms,
                start == old(self).particles@,
            decreases to - i,
        {
            self.particles.push(Particle::new(pos, vels[i]));
            proof {
                assert(burst(pos, vels@.subrange(from as int, i + 1)) =~= burst(
                    pos,
                    vels@.subrange(from as int, i as int),
                ).push(Particle { pos, vel: vels@[i as int], age_ms: 0 }));
                assert(self.particles@ =~= start + burst(pos, vels@.subrange(from as int, i + 1)));
            }
            i = i + 1;
        }
    }

    /// Adds one particle at `pos`, of age zero, for each velocity in `vels`.
    pub fn add_burst(&mut self, pos: Vec2, vels: &Vec<Vec2>)
        requires
            old(self).wf(),
            within(pos, POS_LIMIT as int),
            forall|i: int| 0 <= i < vels@.len() ==> within(#[trigger] vels@[i], SPEED_LIMIT as int),
        ensures
            final(self).wf(),
            final(self).particles@ == old(self).particles@ + burst(pos, vels@),
            final(self).player == old(self).player,
            final(self).bullets@ == old(self).bullets@,
            final(self).asteroids@ == old(self).asteroids@,
            final(self).score == old(self).score,
            final(self).since_spawn_ms == old(self).since_spawn_ms,
    {
        self.push_burst(pos, vels, 0, vels.len());
        assert(vels@.subrange(0, vels@.len() as int) =~= vels@);
    }

    /// Adds the particle bursts that a frame's `report` calls for, taking
    /// the velocities in order from `vels`: `HIT_BURST` at each hit point, in
    /// order, then `DEATH_BURST` at the ship if it died.
    pub fn add_frame_bursts(&mut self, report: &FrameReport, vels: &Vec<Vec2>)
        requires
            old(self).wf(),
            forall|i: int| 0 <= i < report.hits@.len() ==> within(#[trigger] report.hits@[i], POS_LIMIT as int),
            forall|i: int| 0 <= i < vels@.len() ==> within(#[trigger] vels@[i], SPEED_LIMIT as int),
            vels@.len() == HIT_BURST * report.hits@.len() + if report.player_died {
                DEATH_BURST as int
            } else {
                0
            },
        ensures
            final(self).wf(),
            final(self).particles@ == old(self).particles@ + hit_bursts(report.hits@, vels@) + if report.player_died {
                burst(old(self).player.pos, vels@.subrange(HIT_BURST * report.hits@.len(), vels@.len() as int))
            } else {
                seq![]
            },
            final(self).player == old(self).player,
            final(self).bullets@ == old(self).bullets@,
            final(self).asteroids@ == old(self).asteroids@,
            final(self).score == old(self).score,
            final(self).since_spawn_ms == old(self).since_spawn_ms,
    {
        let ghost start = self.particles@;
        let hits = &report.hits;
        let total: usize = vels.len();
        let mut i: usize = 0;
        while i < hits.len()
            invariant
                i <= hits@.len(),
                hits@ == report.hits@,
                self.wf(),
                forall|k: int| 0 <= k < hits@.len() ==> within(#[trigger] hits@[k], POS_LIMIT as int),
                forall|k: int| 0 <= k < vels@.len() ==> within(#[trigger] vels@[k], SPEED_LIMIT as int),
                vels@.len() >= HIT_BURST * hits@.len(),
                total == vels@.len(),
                self.particles@ == start + hit_bursts(hits@.subrange(0, i as int), vels@),
                self.player == old(self).player,
                self.bullets@ == old(self).bullets@,
                self.asteroids@ == old(self).asteroids@,
                self.score == old(self).score,
                self.since_spawn_ms == old(self).since_spawn_ms,
                start == old(self).particles@,
            decreases hits.len() - i,
        {
            assert(i * HIT_BURST + HIT_BURST <= HIT_BURST * hits@.len()) by (nonlinear_arith)
                requires
                    i < hits@.len(),
            ;
            let from: usize = i * HIT_BURST as usize;
            self.push_burst(hits[i], vels, from, from + HIT_BURST as usize);
            proof {
                let next = hits@.subrange(0, i + 1);
                assert(next.drop_last() =~= hits@.subrange(0, i as int));
                assert(next.last() == hits@[i as int]);
                assert(self.particles@ =~= start + hit_bursts(next, vels@));
            }
            i = i + 1;
        }
        assert(hits@.subrange(0, hits@.len() as int) =~= hits@);
        if report.player_died {
            let pos = self.player.pos;
            assert(HIT_BURST * hits@.len() <= total);
            self.push_burst(pos, vels, HIT_BURST as usize * hits.len(), vels.len());
        }
        assert(self.particles@ =~= old(self).particles@ + hit_bursts(report.hits@, vels@) + if report.player_died {
            burst(old(self).player.pos, vels@.subrange(HIT_BURST * report.hits@.len(), vels@.len() as int))
        } else {
            seq![]
        });
    }
}

/// A bullet after flying for `dt` milliseconds.
pub open spec fn flown(b: Bullet, dt: int) -> Bullet {
    Bullet { pos: moved(b.pos, b.vel, dt), vel: b.vel }
}

/// An asteroid after drifting for `dt` milliseconds, wrapped round the field.
pub open spec fn drifted(a: Asteroid, dt: int) -> Asteroid {
    Asteroid { pos: wrapped(moved(a.pos, a.vel, dt), a.radius as int), ..a }
}

pub open spec fn drifted_all(s: Seq<Asteroid>, dt: int) -> Seq<Asteroid> {
    s.map_values(|a: Asteroid| drifted(a, dt))
}

/// A particle after `dt` milliseconds of flight and ageing.
pub open spec fn aged(p: Particle, dt: int) -> Particle {
    Particle { pos: moved(p.pos, p.vel, dt), vel: p.vel, age_ms: (p.age_ms + dt) as u64 }
}

pub open spec fn aged_all(s: Seq<Particle>, dt: int) -> Seq<Particle> {
    s.map_values(|p: Particle| aged(p, dt))
}

/// The bullets' part of a frame, bullet by bullet in order: each flies; one
/// that left the grown field is dropped; one that strikes a target marks the
/// first such asteroid as shot with its velocity, is used up and records
/// where it struck; the rest keep flying. Gives the asteroids, the bullets
/// still flying, and the hit points.
pub open spec fn volley(bs: Seq<Bullet>, rocks: Seq<Asteroid>, dt: int) -> (
    Seq<Asteroid>,
    Seq<Bullet>,
    Seq<Vec2>,
)
    decreases bs.len(),
{
    if bs.len() == 0 {
        (rocks, seq![], seq![])
    } else {
        let (a, f, h) = volley(bs.drop_last(), rocks, dt);
        let b = flown(bs.last(), dt);
        if !in_reach(b.pos, BULLET_RADIUS as int) {
            (a, f, h)
        } else {
            match first_hit(a, centered_rect(b.pos, BULLET_RADIUS * UNIT), 0) {
                Some(j) => (
                    a.update(j, Asteroid { was_hit: HitState::Hit { hit_vec: b.vel }, ..a[j] }),
                    f,
                    h.push(b.pos),
                ),
                None => (a, f.push(b), h),
            }
        }
    }
}

/// The asteroid's box meets the box of a ship at `ship`.
pub open spec fn hits_ship(a: Asteroid, ship: Vec2) -> bool {
    overlap(centered_rect(a.pos, a.radius * UNIT), centered_rect(ship, PLAYER_RADIUS * UNIT))
}

/// Some asteroid's box meets the ship's box.
pub open spec fn rams(rocks: Seq<Asteroid>, ship: Vec2) -> bool {
    exists|k: int| 0 <= k < rocks.len() && hits_ship(#[trigger] rocks[k], ship)
}

/// One of the first `j` asteroids of `marked`, after drifting, meets the ship.
pub open spec fn rams_upto(marked: Seq<Asteroid>, dt: int, j: int, ship: Vec2) -> bool {
    exists|k: int| 0 <= k < j && hits_ship(drifted(#[trigger] marked[k], dt), ship)
}

proof fn lemma_volley_wf(bs: Seq<Bullet>, rocks: Seq<Asteroid>, dt: int)
    requires
        forall|i: int| 0 <= i < bs.len() ==> (#[trigger] bs[i]).wf(),
        all_asteroids_wf(rocks),
        0 <= dt < 0x1_0000_0000,
    ensures
        ({
            let (a, f, h) = volley(bs, rocks, dt);
            &&& all_asteroids_wf(a)
            &&& a.len() == rocks.len()
            &&& forall|i: int|
                0 <= i < f.len() ==> (#[trigger] f[i]).wf() && in_reach(
                    f[i].pos,
                    BULLET_RADIUS as int,
                )
            &&& forall|i: int| 0 <= i < h.len() ==> in_reach(#[trigger] h[i], BULLET_RADIUS as int)
            &&& f.len() + h.len() <= bs.len()
        }),
    decreases bs.len(),
{
    if bs.len() > 0 {
        let rest = bs.drop_last();
        assert forall|i: int| 0 <= i < rest.len() implies (#[trigger] rest[i]).wf() by {
            assert(rest[i] == bs[i]);
        }
        lemma_volley_wf(rest, rocks, dt);
        let (a, f, h) = volley(rest, rocks, dt);
        let b = flown(bs.last(), dt);
        if in_reach(b.pos, BULLET_RADIUS as int) {
            match first_hit(a, centered_rect(b.pos, BULLET_RADIUS * UNIT), 0) {
                Some(j) => {
                    lemma_first_hit_range(a, centered_rect(b.pos, BULLET_RADIUS * UNIT), 0);
                    let a2 = a.update(j, Asteroid { was_hit: HitState::Hit { hit_vec: b.vel }, ..a[j] });
                    assert forall|i: int| 0 <= i < a2.len() implies (#[trigger] a2[i]).wf() by {
                        if i != j {
                            assert(a2[i] == a[i]);
                        }
                    }
                },
                None => {},
            }
        }
    }
}

proof fn lemma_first_hit_range(s: Seq<Asteroid>, r: Rect, k: int)
    ensures
        first_hit(s, r, k) matches Some(j) ==> 0 <= j < s.len() && k <= j,
    decreases s.len() - k,
{
    if 0 <= k < s.len() && !is_target(s[k], r) {
        lemma_first_hit_range(s, r, k + 1);
    }
}

/// Particles of age zero at `pos`, one for each velocity in `vels`.
pub open spec fn burst(pos: Vec2, vels: Seq<Vec2>) -> Seq<Particle> {
    vels.map_values(|v: Vec2| Particle { pos, vel: v, age_ms: 0 })
}

/// A burst of `HIT_BURST` particles at each hit point in turn, the `n`-th
/// taking its velocities from `vels[HIT_BURST * n ..]`.
pub open spec fn hit_bursts(hits: Seq<Vec2>, vels: Seq<Vec2>) -> Seq<Particle>
    decreases hits.len(),
{
    if hits.len() == 0 {
        seq![]
    } else {
        let n = hits.len() - 1;
        hit_bursts(hits.drop_last(), vels) + burst(
            hits.last(),
            vels.subrange(HIT_BURST * n, HIT_BURST * n + HIT_BURST),
        )
    }
}

/// `after` is `before` with nothing spawned, or with one freshly spawned
/// asteroid moving along `dir` appended.
pub open spec fn spawn_result(
    before: Seq<Asteroid>,
    after: Seq<Asteroid>,
    spawned: bool,
    dir: Vec2,
) -> bool {
    if spawned {
        &&& after.len() == before.len() + 1
        &&& after.drop_last() == before
        &&& SPAWN_MIN_RADIUS <= after.last().radius < SPAWN_MAX_RADIUS
        &&& exists|sp: int|
            SPAWN_MIN_SPEED <= sp < SPAWN_MAX_SPEED && after.last() == #[trigger] launched(
                dir,
                sp,
                after.last().radius as int,
            )
    } else {
        after == before
    }
}

/// The bullets, hit points, death and asteroids that a frame of `dt`
/// milliseconds leaves, starting from bullets `bs` and asteroids `rocks`,
/// with the ship (alive before iff `was_alive`) ending at `ship`.
pub open spec fn frame_outcome(
    bs: Seq<Bullet>,
    rocks: Seq<Asteroid>,
    dt: int,
    was_alive: bool,
    ship: Vec2,
    bullets_after: Seq<Bullet>,
    hits: Seq<Vec2>,
    died: bool,
    rocks_after: Seq<Asteroid>,
) -> bool {
    let (marked, flying, h) = volley(bs, rocks, dt);
    let drifted_rocks = drifted_all(marked, dt);
    &&& bullets_after == flying
    &&& hits == h
    &&& died == (was_alive && rams(drifted_rocks, ship))
    &&& rocks_after == kept(drifted_rocks) + shards(drifted_rocks)
}

impl Game {
    /// Counts `dt` milliseconds towards the next automatic spawn; once more
    /// than `SPAWN_INTERVAL_MS` have gone by, adds a random asteroid moving
    /// along `spawn_dir` and restarts the count. Returns whether it spawned.
    pub fn tick_spawn(&mut self, dt: u32, spawn_dir: Vec2) -> (spawned: bool)
        requires
            old(self).wf(),
            is_direction(spawn_dir),
        ensures
            final(self).wf(),
            spawned == (old(self).since_spawn_ms + dt > SPAWN_INTERVAL_MS),
            spawned ==> final(self).since_spawn_ms == 0,
            spawned ==> final(self).asteroids@.drop_last() == old(self).asteroids@,
            spawned ==> final(self).asteroids@.len() == old(self).asteroids@.len() + 1,
            spawned ==> SPAWN_MIN_RADIUS <= final(self).asteroids@.last().radius < SPAWN_MAX_RADIUS,
            spawned ==> exists|sp: int|
                SPAWN_MIN_SPEED <= sp < SPAWN_MAX_SPEED && final(self).asteroids@.last()
                    == #[trigger] launched(spawn_dir, sp, final(self).asteroids@.last().radius as int),
            !spawned ==> final(self).since_spawn_ms == old(self).since_spawn_ms + dt,
            !spawned ==> final(self).asteroids@ == old(self).asteroids@,
            final(self).player == old(self).player,
            final(self).bullets@ == old(self).bullets@,
            final(self).particles@ == old(self).particles@,
            final(self).score == old(self).score,
    {
        if self.since_spawn_ms + dt as u64 > SPAWN_INTERVAL_MS {
            let a = spawn_asteroid(spawn_dir);
            self.asteroids.push(a);
            assert(self.asteroids@.drop_last() =~= old(self).asteroids@);
            self.since_spawn_ms = 0;
            true
        } else {
            self.since_spawn_ms = self.since_spawn_ms + dt as u64;
            false
        }
    }

    /// Runs the deterministic part of a frame of `dt` milliseconds: the ship
    /// moves; the bullets fly and strike (see `volley`); the asteroids drift
    /// and a live ship that any of them meets is destroyed; particles move,
    /// age and the spent ones go; each shot asteroid is replaced by its
    /// fragments.
    pub fn step(&mut self, dt: u32) -> (r: FrameReport)
        requires
            old(self).wf(),
        ensures
            final(self).wf(),
            ({
                let (marked, flying, hits) = volley(old(self).bullets@, old(self).asteroids@, dt as int);
                let rocks = drifted_all(marked, dt as int);
                &&& final(self).player.pos == wrapped(
                    moved(old(self).player.pos, old(self).player.vel, dt as int),
                    PLAYER_RADIUS as int,
                )
                &&& final(self).bullets@ == flying
                &&& r.hits@ == hits
                &&& final(self).score == saturating_sum(old(self).score as int, hits.len() as int)
                &&& r.player_died == (old(self).player.is_alive && rams(
                    rocks,
                    final(self).player.pos,
                ))
                &&& final(self).asteroids@ == kept(rocks) + shards(rocks)
            }),
            final(self).player.vel == old(self).player.vel,
            final(self).player.heading == old(self).player.heading,
            final(self).player.is_alive == (old(self).player.is_alive && !r.player_died),
            final(self).particles@ == alive_particles(aged_all(old(self).particles@, dt as int)),
            final(self).since_spawn_ms == old(self).since_spawn_ms,
            !r.spawned,
            forall|i: int|
                0 <= i < final(self).asteroids@.len() ==> (
                #[trigger] final(self).asteroids@[i]).was_hit is NotHit,
    {
        self.player.update(dt);
        let ghost moved_player = self.player;
        let ghost since = self.since_spawn_ms;
        let ghost bs = self.bullets@;
        let ghost rocks0 = self.asteroids@;
        proof {
            lemma_volley_wf(bs, rocks0, dt as int);
        }

        // bullets: move, drop those off the field, resolve hits
        let mut hits: Vec<Vec2> = Vec::new();
        let mut flying: Vec<Bullet> = Vec::new();
        let mut i: usize = 0;
        while i < self.bullets.len()
            invariant
                i <= self.bullets@.len(),
                self.bullets@ == bs,
                forall|k: int| 0 <= k < bs.len() ==> (#[trigger] bs[k]).wf(),
                all_asteroids_wf(rocks0),
                (self.asteroids@, flying@, hits@) == volley(bs.subrange(0, i as int), rocks0, dt as int),
                self.player == moved_player,
                self.score == old(self).score,
                self.since_spawn_ms == since,
                self.particles@ == old(self).particles@,
                0 <= dt < 0x1_0000_0000,
            decreases self.bullets.len() - i,
        {
            proof {
                let pre = bs.subrange(0, i as int);
                assert forall|k: int| 0 <= k < pre.len() implies (#[trigger] pre[k]).wf() by {
                    assert(pre[k] == bs[k]);
                }
                lemma_volley_wf(pre, rocks0, dt as int);
                let next = bs.subrange(0, i + 1);
                assert(next.drop_last() =~= pre);
                assert(next.last() == bs[i as int]);
            }
            let mut b = self.bullets[i];
            b.update(dt);
            if !b.is_out_of_bounds() {
                let rect = b.get_rect();
                match first_target(&self.asteroids, rect) {
                    Some(j) => {
                        let mut a = self.asteroids[j];
                        a.was_hit = HitState::Hit { hit_vec: b.vel };
                        self.asteroids.set(j, a);
                        hits.push(b.pos);
                    },
                    None => {
                        flying.push(b);
                    },
                }
            }
            i = i + 1;
        }
        proof {
            assert(bs.subrange(0, bs.len() as int) =~= bs);
        }
        let ghost marked = self.asteroids@;
        self.bullets = flying;
        let ghost still_flying = self.bullets@;
        let gained: u64 = hits.len() as u64;
        if self.score <= u64::MAX - gained {
            self.score = self.score + gained;
        } else {
            self.score = u64::MAX;
        }
        let ghost score_now = self.score;

        // asteroids: drift, then meet the ship
        let mut died = false;
        let mut j: usize = 0;
        while j < self.asteroids.len()
            invariant
                j <= self.asteroids@.len(),
                self.asteroids@.len() == marked.len(),
                all_asteroids_wf(self.asteroids@),
                all_asteroids_wf(marked),
                forall|k: int| 0 <= k < j ==> #[trigger] self.asteroids@[k] == drifted(marked[k], dt as int),
                forall|k: int| j <= k < marked.len() ==> #[trigger] self.asteroids@[k] == marked[k],
                forall|k: int|
                    0 <= k < j ==> in_reach(
                        (#[trigger] self.asteroids@[k]).pos,
                        self.asteroids@[k].radius as int,
                    ),
                self.player.wf(),
                self.player.pos == moved_player.pos,
                self.player.vel == moved_player.vel,
                self.player.heading == moved_player.heading,
                died == (old(self).player.is_alive && rams_upto(
                    marked,
                    dt as int,
                    j as int,
                    moved_player.pos,
                )),
                self.player.is_alive == (old(self).player.is_alive && !died),
                moved_player.is_alive == old(self).player.is_alive,
                self.since_spawn_ms == since,
                self.score == score_now,
                forall|m: int|
                    0 <= m < self.bullets@.len() ==> (#[trigger] self.bullets@[m]).wf(),
                forall|m: int| 0 <= m < self.particles@.len() ==> (#[trigger] self.particles@[m]).wf(),
                self.particles@ == old(self).particles@,
                self.bullets@ == still_flying,
            decreases self.asteroids.len() - j,
        {
            let mut a = self.asteroids[j];
            a.update(dt);
            self.asteroids.set(j, a);
            let ghost ship = moved_player.pos;
            assert(a == drifted(marked[j as int], dt as int));
            let meets = are_colliding(a.get_rect(), self.player.get_rect());
            proof {
                if meets {
                    assert(hits_ship(drifted(marked[j as int], dt as int), ship));
                }
                if !rams_upto(marked, dt as int, j as int, ship) && !meets {
                    assert forall|k: int| 0 <= k < j + 1 implies !hits_ship(
                        drifted(#[trigger] marked[k], dt as int),
                        ship,
                    ) by {
                        if k == j {
                            assert(!hits_ship(drifted(marked[j as int], dt as int), ship));
                        }
                    }
                }
            }
            if self.player.is_alive && meets {
                self.player.is_alive = false;
                died = true;
            }
            j = j + 1;
        }
        proof {
            let rocks = drifted_all(marked, dt as int);
            assert(self.asteroids@ =~= rocks);
            let ship = moved_player.pos;
            if rams_upto(marked, dt as int, marked.len() as int, ship) {
                let k = choose|k: int| 0 <= k < marked.len() && hits_ship(drifted(#[trigger] marked[k], dt as int), ship);
                assert(rocks[k] == drifted(marked[k], dt as int));
            }
            if rams(rocks, ship) {
                let k = choose|k: int| 0 <= k < rocks.len() && hits_ship(#[trigger] rocks[k], ship);
                assert(rocks[k] == drifted(marked[k], dt as int));
            }
        }

        // particles: move, age, drop the spent ones
        let ghost ps = aged_all(old(self).particles@, dt as int);
        let mut live: Vec<Particle> = Vec::new();
        let mut k: usize = 0;
        while k < self.particles.len()
            invariant
                k <= self.particles@.len(),
                self.particles@ == old(self).particles@,
                ps == aged_all(old(self).particles@, dt as int),
                self.bullets@ == still_flying,
                forall|m: int| 0 <= m < self.bullets@.len() ==> (#[trigger] self.bullets@[m]).wf(),
                self.asteroids@ == drifted_all(marked, dt as int),
                all_asteroids_wf(self.asteroids@),
                forall|m: int|
                    0 <= m < self.asteroids@.len() ==> in_reach(
                        (#[trigger] self.asteroids@[m]).pos,
                        self.asteroids@[m].radius as int,
                    ),
                self.player.wf(),
                self.player.pos == moved_player.pos,
                self.player.vel == moved_player.vel,
                self.player.heading == moved_player.heading,
                self.player.is_alive == (old(self).player.is_alive && !died),
                died == (old(self).player.is_alive && rams(drifted_all(marked, dt as int), moved_player.pos)),
                self.since_spawn_ms == since,
                self.score == score_now,
                forall|m: int| 0 <= m < self.particles@.len() ==> (#[trigger] self.particles@[m]).wf(),
                live@ == alive_particles(ps.subrange(0, k as int)),
                forall|m: int|
                    0 <= m < live@.len() ==> (#[trigger] live@[m]).wf()
                        && !live@[m].is_expired_spec(),
            decreases self.particles.len() - k,
        {
            proof {
                let next = ps.subrange(0, k + 1);
                assert(next.drop_last() =~= ps.subrange(0, k as int));
                assert(next.last() == aged(self.particles@[k as int], dt as int));
            }
            let mut p = self.particles[k];
            p.update(dt);
            if !p.is_expired() {
                live.push(p);
            }
            k = k + 1;
        }
        proof {
            assert(ps.subrange(0, ps.len() as int) =~= ps);
        }
        self.particles = live;

        let ghost rocks = self.asteroids@;
        self.asteroids = apply_removals(&self.asteroids);
        proof {
            let v = volley(old(self).bullets@, old(self).asteroids@, dt as int);
            assert(v.0 == marked);
            assert(v.1 == self.bullets@);
            assert(v.2 == hits@);
            assert(rocks == drifted_all(marked, dt as int));
            assert(self.asteroids@ == kept(rocks) + shards(rocks));
            assert(died == (old(self).player.is_alive && rams(rocks, self.player.pos)));
        }
        FrameReport { hits, player_died: died, spawned: false }
    }

    /// Runs one frame of `dt` milliseconds: the spawn count (see
    /// `tick_spawn`, with `spawn_dir`), then `step`.
    pub fn advance(&mut self, dt: u32, spawn_dir: Vec2) -> (r: FrameReport)
        requires
            old(self).wf(),
            is_direction(spawn_dir),
        ensures
            final(self).wf(),
            r.spawned == (old(self).since_spawn_ms + dt > SPAWN_INTERVAL_MS),
            final(self).since_spawn_ms == if r.spawned {
                0
            } else {
                old(self).since_spawn_ms + dt
            },
            final(self).player.pos == wrapped(
                moved(old(self).player.pos, old(self).player.vel, dt as int),
                PLAYER_RADIUS as int,
            ),
            final(self).player.vel == old(self).player.vel,
            final(self).player.heading == old(self).player.heading,
            final(self).player.is_alive == (old(self).player.is_alive && !r.player_died),
            r.player_died ==> old(self).player.is_alive,
            final(self).score == saturating_sum(old(self).score as int, r.hits@.len() as int),
            final(self).bullets@.len() + r.hits@.len() <= old(self).bullets@.len(),
            forall|i: int|
                0 <= i < final(self).bullets@.len() ==> in_reach(
                    (#[trigger] final(self).bullets@[i]).pos,
                    BULLET_RADIUS as int,
                ),
            forall|i: int|
                0 <= i < r.hits@.len() ==> in_reach(#[trigger] r.hits@[i], BULLET_RADIUS as int),
            forall|i: int|
                0 <= i < final(self).asteroids@.len() ==> (
                #[trigger] final(self).asteroids@[i]).was_hit is NotHit,
            final(self).particles@ == alive_particles(aged_all(old(self).particles@, dt as int)),
            exists|mid: Seq<Asteroid>|
                #[trigger] spawn_result(old(self).asteroids@, mid, r.spawned, spawn_dir)
                    && frame_outcome(
                    old(self).bullets@,
                    mid,
                    dt as int,
                    old(self).player.is_alive,
                    final(self).player.pos,
                    final(self).bullets@,
                    r.hits@,
                    r.player_died,
                    final(self).asteroids@,
                ),
    {
        let spawned = self.tick_spawn(dt, spawn_dir);
        let ghost mid = *self;
        proof {
            lemma_volley_wf(mid.bullets@, mid.asteroids@, dt as int);
        }
        let r = self.step(dt);
        assert(spawn_result(old(self).asteroids@, mid.asteroids@, spawned, spawn_dir));
        assert(frame_outcome(
            mid.bullets@,
            mid.asteroids@,
            dt as int,
            mid.player.is_alive,
            self.player.pos,
            self.bullets@,
            r.hits@,
            r.player_died,
            self.asteroids@,
        ));
        FrameReport { hits: r.hits, player_died: r.player_died, spawned }
    }
}
/// A bullet that has left the grown field after flying is dropped without
/// touching anything: the frame goes on exactly as if it had not been there.
pub proof fn exited_bullet_never_hits(bs: Seq<Bullet>, b: Bullet, rocks: Seq<Asteroid>, dt: int)
    requires
        !in_reach(flown(b, dt).pos, BULLET_RADIUS as int),
    ensures
        volley(bs.push(b), rocks, dt) == volley(bs, rocks, dt),
{
    assert(bs.push(b).drop_last() =~= bs);
}

} // verus!
