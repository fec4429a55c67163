use vstd::arithmetic::div_mod::{lemma_fundamental_div_mod, lemma_mod_bound};
use vstd::prelude::*;

verus! {

/// Sub-units per pixel; also the length of a direction vector.
pub const UNIT: i64 = 1000;

/// Width of the visible field, in pixels.
pub const FIELD_WIDTH: i64 = 640;

/// Height of the visible field, in pixels.
pub const FIELD_HEIGHT: i64 = 480;

/// A 2D vector in sub-units (positions) or sub-units per second (velocities).
#[derive(Clone, Copy, PartialEq, Eq, Structural, Debug)]
pub struct Vec2 {
    pub x: i64,
    pub y: i64,
}

/// Division rounding toward zero, as Rust's `/` does on integers.
pub open spec fn trunc_div(a: int, d: int) -> int {
    if a >= 0 {
        a / d
    } else {
        -((-a) / d)
    }
}

pub fn div_trunc(a: i128, d: i128) -> (r: i128)
    requires
        d > 0,
        a > i128::MIN,
    ensures
        r == trunc_div(a as int, d as int),
{
    if a >= 0 {
        a / d
    } else {
        -((-a) / d)
    }
}

pub open spec fn len_sq(v: Vec2) -> int {
    v.x * v.x + v.y * v.y
}

/// `c` is the square root of `n` rounded up.
pub open spec fn is_root_up(n: int, c: int) -> bool {
    &&& 0 <= c
    &&& n <= c * c
    &&& (c == 0 || (c - 1) * (c - 1) < n)
}

pub open spec fn root_up(n: int) -> int {
    choose|c: int| is_root_up(n, c)
}

pub proof fn lemma_square_monotone(a: int, b: int)
    requires
        0 <= a <= b,
    ensures
        a * a <= b * b,
{
    assert(a * a <= b * b) by (nonlinear_arith)
        requires
            0 <= a <= b,
    ;
}

pub proof fn lemma_root_up_unique(n: int, c1: int, c2: int)
    requires
        is_root_up(n, c1),
        is_root_up(n, c2),
    ensures
        c1 == c2,
{
    if c1 < c2 {
        lemma_square_monotone(c1, c2 - 1);
    } else if c2 < c1 {
        lemma_square_monotone(c2, c1 - 1);
    }
}

/// The square root of `n`, rounded up.
pub fn sqrt_up(n: u128) -> (r: u128)
    requires
        n < 0x4000_0000_0000_0000_0000_0000_0000_0000,
    ensures
        is_root_up(n as int, r as int),
        r as int == root_up(n as int),
        r <= 0x8000_0000_0000_0000,
{
    // lo * lo < n <= hi * hi, searching for the least such hi
    if n == 0 {
        proof {
            assert(is_root_up(0, 0));
            lemma_root_up_unique(0, 0, root_up(0));
        }
        return 0;
    }
    let mut lo: u128 = 0;
    let mut hi: u128 = 0x8000_0000_0000_0000;
    assert(n <= hi * hi) by (nonlinear_arith)
        requires
            hi == 0x8000_0000_0000_0000u128,
            n < 0x4000_0000_0000_0000_0000_0000_0000_0000,
    ;
    while lo + 1 < hi
        invariant
            0 < n < 0x4000_0000_0000_0000_0000_0000_0000_0000,
            lo < hi <= 0x8000_0000_0000_0000,
            lo * lo < n,
            n <= hi * hi,
        decreases hi - lo,
    {
        let mid: u128 = lo + (hi - lo) / 2;
        assert(mid * mid <= 0x4000_0000_0000_0000_0000_0000_0000_0000) by (nonlinear_arith)
            requires
                mid <= 0x8000_0000_0000_0000u128,
        ;
        if mid * mid < n {
            lo = mid;
        } else {
            hi = mid;
        }
    }
    proof {
        assert(hi - 1 == lo);
        assert(is_root_up(n as int, hi as int));
        lemma_root_up_unique(n as int, hi as int, root_up(n as int));
    }
    hi
}

/// An axis-aligned box; edges belong to it.
#[derive(Clone, Copy, PartialEq, Eq, Structural, Debug)]
pub struct Rect {
    pub left: i64,
    pub top: i64,
    pub right: i64,
    pub bottom: i64,
}

pub open spec fn overlap(a: Rect, b: Rect) -> bool {
    &&& a.left <= b.right
    &&& b.left <= a.right
    &&& a.top <= b.bottom
    &&& b.top <= a.bottom
}

/// True iff the two boxes share a point; touching edges count.
pub fn are_colliding(a: Rect, b: Rect) -> (r: bool)
    ensures
        r == overlap(a, b),
{
    a.left <= b.right && b.left <= a.right && a.top <= b.bottom && b.top <= a.bottom
}

/// Intersection does not depend on the order of the two boxes.
pub proof fn collision_symmetric(a: Rect, b: Rect)
    ensures
        overlap(a, b) == overlap(b, a),
{
}

/// Largest position magnitude that a box can be built around.
pub const COORD_LIMIT: i64 = 0x1000_0000_0000_0000;

pub open spec fn centered_rect(c: Vec2, half: int) -> Rect {
    Rect {
        left: (c.x - half) as i64,
        top: (c.y - half) as i64,
        right: (c.x + half) as i64,
        bottom: (c.y + half) as i64,
    }
}

/// The box of side `2 * radius` pixels centred on `c`.
pub fn rect_around(c: Vec2, radius: u32) -> (r: Rect)
    requires
        -COORD_LIMIT <= c.x <= COORD_LIMIT,
        -COORD_LIMIT <= c.y <= COORD_LIMIT,
    ensures
        r == centered_rect(c, radius * UNIT),
{
    let half: i64 = radius as i64 * UNIT;
    Rect { left: c.x - half, top: c.y - half, right: c.x + half, bottom: c.y + half }
}

/// One coordinate after wrapping: past the far edge by more than `r` it comes
/// back at `-r`, past the near edge at `extent + r`.
pub open spec fn wrap_coord(p: int, r: int, extent: int) -> int {
    if p > extent + r {
        -r
    } else if p < -r {
        extent + r
    } else {
        p
    }
}

pub open spec fn wrapped(p: Vec2, radius: int) -> Vec2 {
    Vec2 {
        x: wrap_coord(p.x as int, radius * UNIT, FIELD_WIDTH * UNIT) as i64,
        y: wrap_coord(p.y as int, radius * UNIT, FIELD_HEIGHT * UNIT) as i64,
    }
}

/// `p` lies in the field grown by `radius` pixels on every side.
pub open spec fn in_reach(p: Vec2, radius: int) -> bool {
    &&& -radius * UNIT <= p.x <= (FIELD_WIDTH + radius) * UNIT
    &&& -radius * UNIT <= p.y <= (FIELD_HEIGHT + radius) * UNIT
}

/// Moves a position that has left the grown field to the opposite side.
pub fn wrap(p: Vec2, radius: u32) -> (r: Vec2)
    ensures
        r == wrapped(p, radius as int),
        in_reach(r, radius as int),
{
    let rr: i64 = radius as i64 * UNIT;
    let w: i64 = FIELD_WIDTH * UNIT;
    let h: i64 = FIELD_HEIGHT * UNIT;
    let x: i64 = if p.x > w + rr {
        -rr
    } else if p.x < -rr {
        w + rr
    } else {
        p.x
    };
    let y: i64 = if p.y > h + rr {
        -rr
    } else if p.y < -rr {
        h + rr
    } else {
        p.y
    };
    Vec2 { x, y }
}

/// Wrapping sends a position past the right edge to `-radius`, leaves a
/// position inside the grown field where it is, and is idempotent.
pub proof fn wrap_laws(p: Vec2, radius: u32)
    ensures
        p.x > (FIELD_WIDTH + radius) * UNIT ==> wrapped(p, radius as int).x == -radius * UNIT,
        in_reach(p, radius as int) ==> wrapped(p, radius as int) == p,
        wrapped(wrapped(p, radius as int), radius as int) == wrapped(p, radius as int),
{
}

/// Largest velocity component that the field keeps, in sub-units per second.
pub const SPEED_LIMIT: i64 = 0x4000_0000;

/// Largest position component that a stored entity may hold.
pub const POS_LIMIT: i64 = 0x100_0000_0000;

pub open spec fn abs(a: int) -> int {
    if a < 0 {
        -a
    } else {
        a
    }
}

pub open spec fn within(v: Vec2, lim: int) -> bool {
    abs(v.x as int) <= lim && abs(v.y as int) <= lim
}

/// Rounding toward zero never grows a quotient: `|a / c| * c <= |a|`.
pub proof fn lemma_trunc_div_bound(a: int, c: int)
    requires
        c > 0,
    ensures
        abs(trunc_div(a, c)) * c <= abs(a),
        abs(trunc_div(a, c)) <= abs(a),
        trunc_div(a, c) * trunc_div(a, c) * (c * c) <= a * a,
{
    let b = abs(a);
    lemma_fundamental_div_mod(b, c);
    lemma_mod_bound(b, c);
    let q = b / c;
    assert(q >= 0) by (nonlinear_arith)
        requires
            b == c * q + b % c,
            0 <= b % c < c,
            b >= 0,
            c > 0,
    ;
    assert(q * c <= b) by (nonlinear_arith)
        requires
            b == c * q + b % c,
            0 <= b % c,
    ;
    assert(q <= b) by (nonlinear_arith)
        requires
            q * c <= b,
            q >= 0,
            c >= 1,
    ;
    assert(abs(trunc_div(a, c)) == q);
    lemma_square_monotone(q * c, b);
    assert(trunc_div(a, c) * trunc_div(a, c) == q * q) by (nonlinear_arith)
        requires
            trunc_div(a, c) == q || trunc_div(a, c) == -q,
    ;
    assert(q * q * (c * c) == (q * c) * (q * c)) by (nonlinear_arith);
    assert(b * b == a * a) by (nonlinear_arith)
        requires
            b == a || b == -a,
    ;
}

/// `v` stretched or shrunk to length `len` (rounding toward zero); the zero
/// vector, which has no direction, stays zero.
pub open spec fn resized(v: Vec2, len: int) -> Vec2 {
    if v.x == 0 && v.y == 0 {
        v
    } else {
        Vec2 {
            x: trunc_div(v.x * len, root_up(len_sq(v))) as i64,
            y: trunc_div(v.y * len, root_up(len_sq(v))) as i64,
        }
    }
}

/// A vector no longer than `c` has no component longer than `c`.
pub proof fn lemma_root_covers(v: Vec2, c: int)
    requires
        len_sq(v) <= c * c,
        c >= 0,
    ensures
        abs(v.x as int) <= c,
        abs(v.y as int) <= c,
{
    let x = abs(v.x as int);
    let y = abs(v.y as int);
    assert(x * x <= c * c && y * y <= c * c) by (nonlinear_arith)
        requires
            len_sq(v) <= c * c,
            len_sq(v) == v.x * v.x + v.y * v.y,
            x == v.x || x == -v.x,
            y == v.y || y == -v.y,
    ;
    if x > c {
        lemma_square_monotone(c + 1, x);
        assert((c + 1) * (c + 1) > c * c) by (nonlinear_arith)
            requires
                c >= 0,
        ;
    }
    if y > c {
        lemma_square_monotone(c + 1, y);
        assert((c + 1) * (c + 1) > c * c) by (nonlinear_arith)
            requires
                c >= 0,
        ;
    }
}

pub proof fn lemma_len_sq_bound(v: Vec2, lim: int)
    requires
        within(v, lim),
        lim >= 0,
    ensures
        0 <= v.x * v.x <= lim * lim,
        0 <= v.y * v.y <= lim * lim,
        0 <= len_sq(v) <= 2 * lim * lim,
{
    let x = abs(v.x as int);
    let y = abs(v.y as int);
    lemma_square_monotone(x, lim);
    lemma_square_monotone(y, lim);
    assert(v.x * v.x == x * x && v.y * v.y == y * y) by (nonlinear_arith)
        requires
            x == v.x || x == -v.x,
            y == v.y || y == -v.y,
    ;
    assert(0 <= x * x && 0 <= y * y) by (nonlinear_arith);
    assert(2 * lim * lim == lim * lim + lim * lim) by (nonlinear_arith);
}

/// Scales `v` to length `len`: the direction-preserving normalisation used
/// for headings and offsets.
pub fn resize(v: Vec2, len: i64) -> (r: Vec2)
    requires
        within(v, POS_LIMIT as int),
        0 <= len <= POS_LIMIT,
    ensures
        r == resized(v, len as int),
        within(r, len as int),
{
    if v.x == 0 && v.y == 0 {
        return v;
    }
    proof {
        lemma_len_sq_bound(v, POS_LIMIT as int);
    }
    let n: u128 = (v.x as i128 * v.x as i128 + v.y as i128 * v.y as i128) as u128;
    let c: u128 = sqrt_up(n);
    proof {
        lemma_root_covers(v, c as int);
        assert(c > 0) by (nonlinear_arith)
            requires
                n as int <= c * c,
                n > 0,
        ;
        assert(abs(v.x * len) <= c * len && abs(v.y * len) <= c * len) by (nonlinear_arith)
            requires
                abs(v.x as int) <= c,
                abs(v.y as int) <= c,
                len >= 0,
        ;
        assert(abs(v.x * len) <= POS_LIMIT * POS_LIMIT && abs(v.y * len) <= POS_LIMIT * POS_LIMIT)
            by (nonlinear_arith)
            requires
                within(v, POS_LIMIT as int),
                0 <= len <= POS_LIMIT,
        ;
        lemma_trunc_div_bound(v.x * len, c as int);
        lemma_trunc_div_bound(v.y * len, c as int);
        assert(abs(trunc_div(v.x * len, c as int)) <= len) by (nonlinear_arith)
            requires
                abs(trunc_div(v.x * len, c as int)) * c <= abs(v.x * len),
                abs(v.x * len) <= c * len,
                c > 0,
        ;
        assert(abs(trunc_div(v.y * len, c as int)) <= len) by (nonlinear_arith)
            requires
                abs(trunc_div(v.y * len, c as int)) * c <= abs(v.y * len),
                abs(v.y * len) <= c * len,
                c > 0,
        ;
    }
    let x: i128 = div_trunc(v.x as i128 * len as i128, c as i128);
    let y: i128 = div_trunc(v.y as i128 * len as i128, c as i128);
    Vec2 { x: x as i64, y: y as i64 }
}

/// Where a position ends up after moving at `v` for `dt` milliseconds.
pub open spec fn moved(p: Vec2, v: Vec2, dt: int) -> Vec2 {
    Vec2 {
        x: (p.x + trunc_div(v.x * dt, 1000)) as i64,
        y: (p.y + trunc_div(v.y * dt, 1000)) as i64,
    }
}

/// The distance that a speed of `SPEED_LIMIT` covers in the longest step.
pub const STEP_REACH: i64 = 0x40_0000_0000_0000;

pub fn move_by(p: Vec2, v: Vec2, dt: u32) -> (r: Vec2)
    requires
        within(p, POS_LIMIT as int),
        within(v, SPEED_LIMIT as int),
    ensures
        r == moved(p, v, dt as int),
        within(r, POS_LIMIT + STEP_REACH),
{
    proof {
        assert(abs(v.x * dt) <= SPEED_LIMIT * 0x1_0000_0000 && abs(v.y * dt) <= SPEED_LIMIT
            * 0x1_0000_0000) by (nonlinear_arith)
            requires
                within(v, SPEED_LIMIT as int),
                0 <= dt < 0x1_0000_0000,
        ;
        lemma_trunc_div_bound(v.x * dt, 1000);
        lemma_trunc_div_bound(v.y * dt, 1000);
    }
    let dx: i128 = div_trunc(v.x as i128 * dt as i128, 1000);
    let dy: i128 = div_trunc(v.y as i128 * dt as i128, 1000);
    Vec2 { x: (p.x as i128 + dx) as i64, y: (p.y as i128 + dy) as i64 }
}

/// Every natural number has a square root rounded up.
pub proof fn lemma_root_up_exists(n: int)
    requires
        n >= 0,
    ensures
        is_root_up(n, root_up(n)),
    decreases n,
{
    if n == 0 {
        assert(is_root_up(0, 0));
    } else {
        lemma_root_up_exists(n - 1);
        let c = root_up(n - 1);
        if n <= c * c {
            assert(c == 0 || (c - 1) * (c - 1) < n);
            assert(is_root_up(n, c));
        } else {
            assert(c * c == n - 1);
            assert(n <= (c + 1) * (c + 1)) by (nonlinear_arith)
                requires
                    c * c == n - 1,
                    c >= 0,
            ;
            assert(is_root_up(n, c + 1));
        }
    }
}

/// A resized vector has no component longer than the length asked for.
pub proof fn lemma_resized_within(v: Vec2, len: int)
    requires
        0 <= len,
    ensures
        within(resized(v, len), len),
{
    if !(v.x == 0 && v.y == 0) {
        lemma_len_sq_bound(v, abs(v.x as int) + abs(v.y as int));
        let c = root_up(len_sq(v));
        lemma_root_up_exists(len_sq(v));
        lemma_root_covers(v, c);
        assert(c > 0) by (nonlinear_arith)
            requires
                len_sq(v) <= c * c,
                len_sq(v) == v.x * v.x + v.y * v.y,
                !(v.x == 0 && v.y == 0),
                c >= 0,
        ;
        lemma_trunc_div_bound(v.x * len, c);
        lemma_trunc_div_bound(v.y * len, c);
        assert(abs(v.x * len) <= c * len && abs(v.y * len) <= c * len) by (nonlinear_arith)
            requires
                abs(v.x as int) <= c,
                abs(v.y as int) <= c,
                len >= 0,
        ;
        assert(abs(trunc_div(v.x * len, c)) <= len) by (nonlinear_arith)
            requires
                abs(trunc_div(v.x * len, c)) * c <= abs(v.x * len),
                abs(v.x * len) <= c * len,
                c > 0,
        ;
        assert(abs(trunc_div(v.y * len, c)) <= len) by (nonlinear_arith)
            requires
                abs(trunc_div(v.y * len, c)) * c <= abs(v.y * len),
                abs(v.y * len) <= c * len,
                c > 0,
        ;
    }
}

} // verus!
