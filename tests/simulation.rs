use asteroids::entities::{
    launch_asteroid, spawn_asteroid, Asteroid, Bullet, HitState, Particle, Player, FULL_TURN,
    MAX_SPEED, PARTICLE_LIFETIME_MS,
};
use asteroids::game::{apply_removals, first_target, Game, DEATH_BURST, HIT_BURST};
use asteroids::geometry::{are_colliding, div_trunc, rect_around, resize, sqrt_up, wrap, Rect, Vec2, UNIT};

fn v(x: i64, y: i64) -> Vec2 {
    Vec2 { x, y }
}

fn len_sq(a: Vec2) -> i128 {
    a.x as i128 * a.x as i128 + a.y as i128 * a.y as i128
}

#[test]
fn wrap_past_right_edge_comes_back_at_minus_radius() {
    let p = wrap(v((640 + 5) * UNIT + 1, 100 * UNIT), 5);
    assert_eq!(p, v(-5 * UNIT, 100 * UNIT));
}

#[test]
fn wrap_past_each_edge() {
    assert_eq!(wrap(v(-5 * UNIT - 1, 10), 5).x, (640 + 5) * UNIT);
    assert_eq!(wrap(v(10, (480 + 5) * UNIT + 1), 5).y, -5 * UNIT);
    assert_eq!(wrap(v(10, -5 * UNIT - 1), 5).y, (480 + 5) * UNIT);
}

#[test]
fn wrap_leaves_in_bounds_points_and_is_idempotent() {
    let inside = v(300 * UNIT, 200 * UNIT);
    assert_eq!(wrap(inside, 14), inside);
    let edge = v((640 + 14) * UNIT, -14 * UNIT);
    assert_eq!(wrap(edge, 14), edge);
    let once = wrap(v(700 * UNIT, -40 * UNIT), 14);
    assert_eq!(wrap(once, 14), once);
}

#[test]
fn accelerate_from_rest_clamps_to_max_speed() {
    let mut p = Player::new(v(320 * UNIT, 240 * UNIT));
    p.accelerate(v(0, -UNIT), 1000);
    assert_eq!(p.vel, v(0, -MAX_SPEED));
    assert_eq!(p.pos, v(320 * UNIT, 240 * UNIT));
}

#[test]
fn accelerate_below_cap_is_not_rescaled() {
    let mut p = Player::new(v(320 * UNIT, 240 * UNIT));
    p.accelerate(v(0, -UNIT), 100);
    assert_eq!(p.vel, v(0, -50_000));
}

#[test]
fn accelerate_diagonal_rescales_along_velocity() {
    let mut p = Player::new(v(320 * UNIT, 240 * UNIT));
    p.accelerate(v(707, -707), 1000);
    assert_eq!(p.vel, v(247_487, -247_487));
    for _ in 0..50 {
        p.accelerate(v(707, -707), 250);
        assert!(len_sq(p.vel) <= MAX_SPEED as i128 * MAX_SPEED as i128);
    }
}

#[test]
fn rotation_turns_and_stays_in_one_turn() {
    let mut p = Player::new(v(0, 0));
    p.rotate_right(1);
    assert_eq!(p.heading, 6000);
    p.rotate_left(2);
    assert_eq!(p.heading, FULL_TURN - 6000);
}

#[test]
fn player_update_moves_and_wraps() {
    let mut p = Player::new(v(320 * UNIT, 240 * UNIT));
    p.vel = v(100_000, 0);
    p.update(500);
    assert_eq!(p.pos, v(370 * UNIT, 240 * UNIT));
    p.pos = v(654 * UNIT, 240 * UNIT);
    p.update(10);
    assert_eq!(p.pos, v(-14 * UNIT, 240 * UNIT));
}

#[test]
fn bullet_spawns_at_nose() {
    let p = Player::new(v(320 * UNIT, 240 * UNIT));
    let b = p.spawn_bullet(v(0, -UNIT));
    assert_eq!(b.pos, v(320 * UNIT, 230 * UNIT));
    assert_eq!(b.vel, v(0, -800 * UNIT));
}

#[test]
fn bullet_out_of_bounds_only_past_grown_field() {
    let mut b = Bullet::new(v(643 * UNIT, 10 * UNIT), v(UNIT, 0));
    assert!(!b.is_out_of_bounds());
    b.update(1);
    assert!(b.is_out_of_bounds());
}

fn hit_asteroid(radius: u32) -> Asteroid {
    let mut a = Asteroid::new(v(320_000, 240_000), v(10_000, 30_000), radius);
    a.was_hit = HitState::Hit { hit_vec: v(800_000, 0) };
    a
}

#[test]
fn split_radius_30_gives_two_deflected_fragments() {
    let parts = hit_asteroid(30).get_splits();
    assert_eq!(parts.len(), 2);
    assert_eq!(parts[0].radius, 15);
    assert_eq!(parts[1].radius, 15);
    assert_eq!(parts[0].vel, v(7000, -10_623));
    assert_eq!(parts[1].vel, v(7000, 52_623));
    assert_eq!(parts[0].pos, v(328_253, 227_475));
    assert_eq!(parts[1].pos, v(321_977, 254_868));
    assert_eq!(parts[0].was_hit, HitState::NotHit);
}

#[test]
fn split_offsets_fragment_by_its_radius_along_velocity() {
    let parent = hit_asteroid(40);
    for part in parent.get_splits() {
        let off = resize(part.vel, 20 * UNIT);
        assert_eq!(part.pos, v(parent.pos.x + off.x, parent.pos.y + off.y));
    }
}

#[test]
fn split_below_min_radius_gives_nothing() {
    assert_eq!(hit_asteroid(19).get_splits().len(), 0);
    assert_eq!(hit_asteroid(20).get_splits().len(), 2);
}

#[test]
fn boxes_far_apart_do_not_collide() {
    let a = rect_around(v(0, 0), 5);
    let b = rect_around(v(100 * UNIT, 0), 5);
    assert_eq!(a, Rect { left: -5000, top: -5000, right: 5000, bottom: 5000 });
    assert!(!are_colliding(a, b));
}

#[test]
fn collision_is_symmetric_and_counts_touching_edges() {
    let a = Rect { left: 0, top: 0, right: 10, bottom: 10 };
    let b = Rect { left: 10, top: 5, right: 20, bottom: 15 };
    let c = Rect { left: 11, top: 0, right: 20, bottom: 10 };
    assert!(are_colliding(a, b));
    assert!(are_colliding(b, a));
    assert!(!are_colliding(a, c));
    assert!(!are_colliding(c, a));
}

#[test]
fn roots_and_division() {
    assert_eq!(sqrt_up(0), 0);
    assert_eq!(sqrt_up(16), 4);
    assert_eq!(sqrt_up(17), 5);
    assert_eq!(sqrt_up(1_000_000_000), 31_623);
    assert_eq!(div_trunc(-7, 2), -3);
    assert_eq!(div_trunc(7, 2), 3);
    assert_eq!(resize(v(3, 4), 5000), v(3000, 4000));
    assert_eq!(resize(v(0, 0), 5000), v(0, 0));
}

#[test]
fn launch_places_asteroid_outside_the_edge_it_leaves() {
    let a = launch_asteroid(v(UNIT, 0), 60_000, 50);
    assert_eq!(a.vel, v(60_000, 0));
    assert_eq!(a.pos, v(-50 * UNIT, (480 + 50) * UNIT));
    let b = launch_asteroid(v(-600, 800), 30_000, 20);
    assert_eq!(b.vel, v(-18_000, 24_000));
    assert_eq!(b.pos, v((640 + 20) * UNIT, -20 * UNIT));
}

#[test]
fn spawn_draws_radius_and_speed_from_bands() {
    for _ in 0..200 {
        let a = spawn_asteroid(v(0, UNIT));
        assert!(a.radius >= 20 && a.radius < 100);
        assert!(a.vel.y >= 30_000 && a.vel.y < 90_000);
        assert_eq!(a.vel.x, 0);
        assert_eq!(a.pos, v((640 + a.radius as i64) * UNIT, -(a.radius as i64) * UNIT));
    }
}

#[test]
fn first_target_is_first_unshot_match() {
    let mut shot = Asteroid::new(v(100 * UNIT, 100 * UNIT), v(0, 0), 30);
    shot.was_hit = HitState::Hit { hit_vec: v(1, 0) };
    let list = vec![
        Asteroid::new(v(500 * UNIT, 100 * UNIT), v(0, 0), 30),
        shot,
        Asteroid::new(v(110 * UNIT, 100 * UNIT), v(0, 0), 30),
        Asteroid::new(v(105 * UNIT, 100 * UNIT), v(0, 0), 30),
    ];
    let r = rect_around(v(100 * UNIT, 100 * UNIT), 3);
    assert_eq!(first_target(&list, r), Some(2));
    let far = rect_around(v(300 * UNIT, 400 * UNIT), 3);
    assert_eq!(first_target(&list, far), None);
}

#[test]
fn removals_keep_order_and_append_fragments() {
    let plain = Asteroid::new(v(10 * UNIT, 10 * UNIT), v(0, 0), 12);
    let list = vec![hit_asteroid(30), plain, hit_asteroid(12)];
    let out = apply_removals(&list);
    assert_eq!(out.len(), 3);
    assert_eq!(out[0].pos, plain.pos);
    assert_eq!(out[1].radius, 15);
    assert_eq!(out[2].radius, 15);
}

#[test]
fn bullet_past_edge_is_removed_without_colliding() {
    let mut g = Game::new();
    g.asteroids.clear();
    g.asteroids.push(Asteroid::new(v(660 * UNIT, 100 * UNIT), v(0, 0), 30));
    g.bullets.push(Bullet::new(v(643 * UNIT, 100 * UNIT), v(UNIT, 0)));
    let r = g.advance(10, v(UNIT, 0));
    assert!(g.bullets.is_empty());
    assert!(r.hits.is_empty());
    assert_eq!(g.score, 0);
    assert_eq!(g.asteroids.len(), 1);
}

#[test]
fn bullet_hit_scores_and_fragments_asteroid() {
    let mut g = Game::new();
    g.asteroids.clear();
    g.asteroids.push(Asteroid::new(v(200 * UNIT, 100 * UNIT), v(0, 0), 30));
    g.asteroids.push(Asteroid::new(v(205 * UNIT, 100 * UNIT), v(0, 0), 30));
    g.bullets.push(Bullet::new(v(170 * UNIT, 100 * UNIT), v(UNIT, 0)));
    let r = g.advance(1, v(UNIT, 0));
    assert_eq!(r.hits, vec![v(170_800, 100 * UNIT)]);
    assert_eq!(g.score, 1);
    assert!(g.bullets.is_empty());
    assert_eq!(g.asteroids.len(), 3);
    assert_eq!(g.asteroids[0].pos, v(205 * UNIT, 100 * UNIT));
    assert_eq!(g.asteroids[1].radius, 15);
    assert_eq!(g.asteroids[2].radius, 15);
}

#[test]
fn asteroid_kills_player_and_restart_resets_it() {
    let mut g = Game::new();
    g.asteroids.clear();
    g.asteroids.push(Asteroid::new(v(330 * UNIT, 240 * UNIT), v(0, 0), 30));
    g.player.vel = v(1000, 0);
    let r = g.advance(16, v(UNIT, 0));
    assert!(r.player_died);
    assert!(!g.player.is_alive);
    let vels: Vec<Vec2> = (0..DEATH_BURST as i64).map(|i| v(100_000 + i, 0)).collect();
    g.add_burst(g.player.pos, &vels);
    assert_eq!(g.particles.len(), DEATH_BURST as usize);
    assert!(!g.fire(v(0, -UNIT)));
    assert!(g.restart());
    assert!(g.player.is_alive);
    assert_eq!(g.player.pos, v(320 * UNIT, 240 * UNIT));
    assert_eq!(g.player.vel, v(0, 0));
    assert_eq!(g.player.heading, 0);
    assert!(!g.restart());
}

#[test]
fn spawn_timer_adds_asteroid_after_interval() {
    let mut g = Game::new();
    let r = g.advance(5000, v(UNIT, 0));
    assert!(!r.spawned);
    assert_eq!(g.since_spawn_ms, 5000);
    let before = g.asteroids.len();
    let r = g.advance(1, v(UNIT, 0));
    assert!(r.spawned);
    assert_eq!(g.since_spawn_ms, 0);
    assert_eq!(g.asteroids.len(), before + 1);
}

#[test]
fn particles_expire_by_age_or_leaving() {
    let mut p = Particle::new(v(100 * UNIT, 100 * UNIT), v(0, 0));
    assert!(!p.is_expired());
    p.update(PARTICLE_LIFETIME_MS as u32);
    assert!(p.is_expired());
    let mut g = Game::new();
    g.add_burst(v(100 * UNIT, 100 * UNIT), &vec![v(0, 0), v(10_000_000, 0)]);
    g.advance(100, v(UNIT, 0));
    assert_eq!(g.particles.len(), 1);
    g.advance(2000, v(UNIT, 0));
    assert_eq!(g.particles.len(), 0);
}

#[test]
fn steer_and_thrust_ignored_when_dead() {
    let mut g = Game::new();
    g.player.is_alive = false;
    g.steer(true, false, 10);
    g.thrust(v(0, -UNIT), 1000);
    assert_eq!(g.player.heading, 0);
    assert_eq!(g.player.vel, v(0, 0));
    g.player.is_alive = true;
    g.steer(false, true, 10);
    g.thrust(v(0, -UNIT), 1000);
    assert_eq!(g.player.heading, 60_000);
    assert_eq!(g.player.vel, v(0, -MAX_SPEED));
}

#[test]
fn step_does_not_touch_spawn_count() {
    let mut g = Game::new();
    g.since_spawn_ms = 4999;
    let r = g.step(10);
    assert!(!r.spawned);
    assert_eq!(g.since_spawn_ms, 4999);
    assert_eq!(g.asteroids.len(), 1);
    assert_eq!(g.asteroids[0].pos, v(100_100, 100_300));
}

#[test]
fn tick_spawn_adds_one_asteroid_after_interval() {
    let mut g = Game::new();
    g.since_spawn_ms = 4999;
    assert!(!g.tick_spawn(1, v(0, UNIT)));
    assert_eq!(g.since_spawn_ms, 5000);
    assert!(g.tick_spawn(1, v(0, UNIT)));
    assert_eq!(g.since_spawn_ms, 0);
    assert_eq!(g.asteroids.len(), 2);
    let a = g.asteroids[1];
    assert!(a.radius >= 20 && a.radius < 100);
    assert_eq!(a.was_hit, HitState::NotHit);
}

#[test]
fn steering_both_ways_cancels_out() {
    let mut g = Game::new();
    g.steer(true, true, 10);
    assert_eq!(g.player.heading, 0);
    g.steer(false, false, 10);
    assert_eq!(g.player.heading, 0);
    g.steer(true, false, 10);
    assert_eq!(g.player.heading, FULL_TURN - 60_000);
}

#[test]
fn frame_bursts_follow_the_report() {
    let mut g = Game::new();
    g.asteroids.clear();
    g.asteroids.push(Asteroid::new(v(200 * UNIT, 100 * UNIT), v(0, 0), 30));
    g.asteroids.push(Asteroid::new(v(330 * UNIT, 240 * UNIT), v(0, 0), 30));
    g.bullets.push(Bullet::new(v(170 * UNIT, 100 * UNIT), v(UNIT, 0)));
    let r = g.advance(1, v(UNIT, 0));
    assert_eq!(r.hits.len(), 1);
    assert!(r.player_died);
    let n = HIT_BURST as usize + DEATH_BURST as usize;
    let vels: Vec<Vec2> = (0..n as i64).map(|i| v(1000 + i, 0)).collect();
    g.add_frame_bursts(&r, &vels);
    assert_eq!(g.particles.len(), n);
    for (i, p) in g.particles.iter().enumerate() {
        let at = if i < HIT_BURST as usize { r.hits[0] } else { g.player.pos };
        assert_eq!(p.pos, at);
        assert_eq!(p.vel, vels[i]);
        assert_eq!(p.age_ms, 0);
    }
}

#[test]
fn new_game_holds_the_starting_asteroid() {
    let g = Game::new();
    assert_eq!(g.asteroids.len(), 1);
    assert_eq!(g.asteroids[0].pos, v(100 * UNIT, 100 * UNIT));
    assert_eq!(g.asteroids[0].vel, v(10 * UNIT, 30 * UNIT));
    assert_eq!(g.asteroids[0].radius, 30);
}
