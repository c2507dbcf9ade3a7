//! Constant-speed movement of a rendered position toward its board cell.
//!
//! Each frame a piece that is farther than `SNAP_DISTANCE` from its target
//! moves straight toward it by the distance that `SPEED` covers in the
//! frame's duration. The direction is recomputed every frame, so a changed
//! target simply redirects the piece. Each axis moves by its share of the
//! step rounded away from zero, so rounding never leaves a piece farther
//! behind than exact arithmetic would. A step that would reach or pass the
//! target lands exactly on it.

use vstd::prelude::*;
use vstd::arithmetic::div_mod::{lemma_fundamental_div_mod, lemma_mod_pos_bound};
use crate::geometry::{
    Position, dist_sq, floor_sqrt, is_floor_sqrt, isqrt, lemma_floor_sqrt, lemma_square_le,
};

verus! {

/// Distance (0.1 tile) within which a piece counts as arrived.
pub const SNAP_DISTANCE: i64 = 100_000;

/// Square of `SNAP_DISTANCE`.
pub const SNAP_DISTANCE_SQ: u64 = 10_000_000_000;

/// Animation speed in units per second: one tile per second.
pub const SPEED: u64 = 1_000_000;

/// Microseconds in one second.
pub const MICROS_PER_SECOND: u64 = 1_000_000;

/// Largest magnitude of a coordinate that the animator accepts (1000 tiles).
pub const COORD_LIMIT: i64 = 1_000_000_000;

/// Every coordinate of `p` lies within `COORD_LIMIT` of the origin.
pub open spec fn in_range(p: (int, int, int)) -> bool {
    &&& -COORD_LIMIT <= p.0 <= COORD_LIMIT
    &&& -COORD_LIMIT <= p.1 <= COORD_LIMIT
    &&& -COORD_LIMIT <= p.2 <= COORD_LIMIT
}

/// `p` is within the snap distance of `t`: a piece there does not move.
pub open spec fn settled(p: (int, int, int), t: (int, int, int)) -> bool {
    dist_sq(p, t) <= SNAP_DISTANCE * SNAP_DISTANCE
}

/// Distance covered at `SPEED` in `delta_micros` microseconds.
pub open spec fn travel(delta_micros: int) -> int {
    delta_micros * SPEED / (MICROS_PER_SECOND as int)
}

/// `x / l`, rounded up.
pub open spec fn ceil_div(x: int, l: int) -> int {
    (x + l - 1) / l
}

/// Movement along one axis with displacement `d`, for a step of length `s`
/// out of a total distance `l`: `d * s / l`, rounded away from zero.
pub open spec fn axis_step(d: int, s: int, l: int) -> int {
    if d >= 0 {
        ceil_div(d * s, l)
    } else {
        -ceil_div(-d * s, l)
    }
}

/// The rendered position after one frame in which the piece may travel `s`
/// toward target `t`.
pub open spec fn step_toward(p: (int, int, int), t: (int, int, int), s: int) -> (int, int, int) {
    if settled(p, t) {
        p
    } else {
        let l = floor_sqrt(dist_sq(p, t));
        if s >= l {
            t
        } else {
            (
                p.0 + axis_step(t.0 - p.0, s, l),
                p.1 + axis_step(t.1 - p.1, s, l),
                p.2 + axis_step(t.2 - p.2, s, l),
            )
        }
    }
}

/// The rendered position after `n` frames that each allow a travel of `s`.
pub open spec fn advance_n(p: (int, int, int), t: (int, int, int), s: int, n: nat) -> (int, int, int)
    decreases n,
{
    if n == 0 {
        p
    } else {
        advance_n(step_toward(p, t, s), t, s, (n - 1) as nat)
    }
}

/// Bounds on a quotient rounded up.
proof fn lemma_ceil_div(x: int, l: int, a: int)
    requires
        l > 0,
        0 <= x <= a * l,
    ensures
        0 <= ceil_div(x, l) <= a,
        ceil_div(x, l) * l >= x,
{
    let c = ceil_div(x, l);
    lemma_fundamental_div_mod(x + l - 1, l);
    lemma_mod_pos_bound(x + l - 1, l);
    assert(c * l == l * c) by (nonlinear_arith);
    assert(0 <= c) by (nonlinear_arith)
        requires
            c * l >= x,
            x >= 0,
            l > 0,
    ;
    assert(c <= a) by (nonlinear_arith)
        requires
            c * l <= x + l - 1,
            x <= a * l,
            l > 0,
    ;
}

/// Along one axis a step shrinks the displacement `d` toward zero without
/// passing it, to at most `(l - s) / l` of its size.
proof fn lemma_axis_step(d: int, s: int, l: int)
    requires
        0 <= s < l,
    ensures
        d >= 0 ==> 0 <= axis_step(d, s, l) <= d,
        d < 0 ==> d <= axis_step(d, s, l) <= 0,
        l * l * ((d - axis_step(d, s, l)) * (d - axis_step(d, s, l))) <= (l - s) * (l - s) * (d
            * d),
{
    let a = if d >= 0 { d } else { -d };
    assert(a * s <= a * l) by (nonlinear_arith)
        requires
            a >= 0,
            s <= l,
    ;
    assert(0 <= a * s) by (nonlinear_arith)
        requires
            a >= 0,
            s >= 0,
    ;
    assert(-d * s == a * s || d * s == a * s);
    lemma_ceil_div(a * s, l, a);
    let c = ceil_div(a * s, l);
    let rest = a - c;
    assert(l * rest <= a * (l - s)) by (nonlinear_arith)
        requires
            c * l >= a * s,
            rest == a - c,
    ;
    assert(0 <= l * rest) by (nonlinear_arith)
        requires
            rest >= 0,
            l > 0,
    ;
    lemma_square_le(l * rest, a * (l - s));
    let e = d - axis_step(d, s, l);
    assert(d * d == a * a) by (nonlinear_arith)
        requires
            a == d || a == -d,
    ;
    assert(e * e == rest * rest) by (nonlinear_arith)
        requires
            e == rest || e == -rest,
    ;
    assert(l * l * (e * e) <= (l - s) * (l - s) * (d * d)) by (nonlinear_arith)
        requires
            (l * rest) * (l * rest) <= (a * (l - s)) * (a * (l - s)),
            e * e == rest * rest,
            d * d == a * a,
    ;
}

/// A position farther than the snap distance has a rounded-down distance
/// of at least the snap distance.
proof fn lemma_moving_distance(p: (int, int, int), t: (int, int, int))
    requires
        !settled(p, t),
    ensures
        is_floor_sqrt(dist_sq(p, t), floor_sqrt(dist_sq(p, t))),
        floor_sqrt(dist_sq(p, t)) >= SNAP_DISTANCE,
{
    let q = dist_sq(p, t);
    lemma_floor_sqrt(q);
    let l = floor_sqrt(q);
    if l < SNAP_DISTANCE {
        lemma_square_le(l + 1, SNAP_DISTANCE as int);
    }
}

/// A step shorter than the distance scales the squared distance by at most
/// `((l - s) / l)^2`, where `l` is the rounded-down distance.
proof fn lemma_step_shrinks(p: (int, int, int), t: (int, int, int), s: int)
    requires
        !settled(p, t),
        0 <= s < floor_sqrt(dist_sq(p, t)),
    ensures
        ({
            let l = floor_sqrt(dist_sq(p, t));
            l * l * dist_sq(step_toward(p, t, s), t) <= (l - s) * (l - s) * dist_sq(p, t)
        }),
{
    let l = floor_sqrt(dist_sq(p, t));
    let (d0, d1, d2) = (t.0 - p.0, t.1 - p.1, t.2 - p.2);
    lemma_axis_step(d0, s, l);
    lemma_axis_step(d1, s, l);
    lemma_axis_step(d2, s, l);
    let e0 = d0 - axis_step(d0, s, l);
    let e1 = d1 - axis_step(d1, s, l);
    let e2 = d2 - axis_step(d2, s, l);
    let n = step_toward(p, t, s);
    assert(t.0 - n.0 == e0 && t.1 - n.1 == e1 && t.2 - n.2 == e2);
    assert(dist_sq(n, t) == e0 * e0 + e1 * e1 + e2 * e2);
    assert(dist_sq(p, t) == d0 * d0 + d1 * d1 + d2 * d2);
    assert(l * l * (e0 * e0 + e1 * e1 + e2 * e2) <= (l - s) * (l - s) * (d0 * d0 + d1 * d1 + d2
        * d2)) by (nonlinear_arith)
        requires
            l * l * (e0 * e0) <= (l - s) * (l - s) * (d0 * d0),
            l * l * (e1 * e1) <= (l - s) * (l - s) * (d1 * d1),
            l * l * (e2 * e2) <= (l - s) * (l - s) * (d2 * d2),
    ;
}

/// If the distance is at most `b`, a step of `s` shorter than the distance
/// leaves a distance of at most `b - s`.
proof fn lemma_step_within(p: (int, int, int), t: (int, int, int), s: int, b: int)
    requires
        !settled(p, t),
        0 <= s < floor_sqrt(dist_sq(p, t)),
        0 <= b,
        dist_sq(p, t) <= b * b,
    ensures
        b - s > 0,
        dist_sq(step_toward(p, t, s), t) <= (b - s) * (b - s),
{
    let q = dist_sq(p, t);
    let l = floor_sqrt(q);
    lemma_moving_distance(p, t);
    lemma_step_shrinks(p, t, s);
    if b < l {
        lemma_square_le(b + 1, l);
        assert(false) by (nonlinear_arith)
            requires
                (b + 1) * (b + 1) <= l * l,
                l * l <= q,
                q <= b * b,
                b >= 0,
        ;
    }
    let q2 = dist_sq(step_toward(p, t, s), t);
    assert((l - s) * (l - s) * q <= (l - s) * (l - s) * (b * b)) by (nonlinear_arith)
        requires
            q <= b * b,
    ;
    assert((l - s) * b <= l * (b - s)) by (nonlinear_arith)
        requires
            0 <= s,
            l <= b,
    ;
    assert(0 <= (l - s) * b) by (nonlinear_arith)
        requires
            s < l,
            0 <= b,
    ;
    lemma_square_le((l - s) * b, l * (b - s));
    assert(q2 <= (b - s) * (b - s)) by (nonlinear_arith)
        requires
            l * l * q2 <= (l - s) * (l - s) * q,
            (l - s) * (l - s) * q <= (l - s) * (l - s) * (b * b),
            ((l - s) * b) * ((l - s) * b) <= (l * (b - s)) * (l * (b - s)),
            l > 0,
    ;
}

/// A settled piece stays where it is, however many frames pass.
pub proof fn lemma_settled_stays(p: (int, int, int), t: (int, int, int), s: int, n: nat)
    requires
        settled(p, t),
    ensures
        advance_n(p, t, s, n) == p,
    decreases n,
{
    if n > 0 {
        lemma_settled_stays(p, t, s, (n - 1) as nat);
    }
}

/// No drift at rest: a piece whose rendered position equals its target
/// keeps that position through any number of frames of any length.
pub proof fn lemma_at_rest(t: (int, int, int), s: int, n: nat)
    ensures
        advance_n(t, t, s, n) == t,
{
    lemma_settled_stays(t, t, s, n);
}

/// A moving piece gets strictly closer to its target in every frame that
/// allows any travel at all.
pub proof fn lemma_step_closer(p: (int, int, int), t: (int, int, int), s: int)
    requires
        !settled(p, t),
        s >= 1,
    ensures
        dist_sq(step_toward(p, t, s), t) < dist_sq(p, t),
{
    let q = dist_sq(p, t);
    let l = floor_sqrt(q);
    lemma_moving_distance(p, t);
    if s >= l {
        assert(step_toward(p, t, s) == t);
        assert(dist_sq(t, t) == 0);
    } else {
        lemma_step_shrinks(p, t, s);
        let q2 = dist_sq(step_toward(p, t, s), t);
        assert(q2 < q) by (nonlinear_arith)
            requires
                l * l * q2 <= (l - s) * (l - s) * q,
                1 <= s < l,
                q > 0,
        ;
    }
}

/// Convergence: a piece starting at distance at most `b` from its target
/// settles within `n` frames of travel `s` each, whenever `n * s` covers
/// `b` less the snap distance, i.e. after `ceil((b - SNAP_DISTANCE) / s)`
/// frames.
pub proof fn lemma_converges(p: (int, int, int), t: (int, int, int), s: int, b: int, n: nat)
    requires
        s >= 0,
        b >= 0,
        dist_sq(p, t) <= b * b,
        n * s >= b - SNAP_DISTANCE,
    ensures
        settled(advance_n(p, t, s, n), t),
    decreases n,
{
    if settled(p, t) {
        lemma_settled_stays(p, t, s, n);
    } else {
        if n == 0 {
            assert(n * s == 0) by (nonlinear_arith)
                requires
                    n == 0,
            ;
            lemma_square_le(b, SNAP_DISTANCE as int);
        }
        let q = dist_sq(p, t);
        let l = floor_sqrt(q);
        lemma_moving_distance(p, t);
        let m = (n - 1) as nat;
        if s >= l {
            assert(step_toward(p, t, s) == t);
            assert(dist_sq(t, t) == 0);
            lemma_settled_stays(t, t, s, m);
        } else {
            lemma_step_within(p, t, s, b);
            assert(m * s >= (b - s) - SNAP_DISTANCE) by (nonlinear_arith)
                requires
                    n * s >= b - SNAP_DISTANCE,
                    m == n - 1,
            ;
            lemma_converges(step_toward(p, t, s), t, s, b - s, m);
        }
    }
}

/// Distance covered at `SPEED` in `delta_micros` microseconds.
fn travel_distance(delta_micros: u64) -> (s: u128)
    ensures
        s == travel(delta_micros as int),
{
    delta_micros as u128 * SPEED as u128 / MICROS_PER_SECOND as u128
}

/// Movement along one axis with displacement `d`: `d * s / l`, rounded away
/// from zero.
fn axis_move(d: i64, s: u64, l: u64) -> (r: i64)
    requires
        0 <= s < l <= 0x1_0000_0000,
        -0x1_0000_0000 <= d <= 0x1_0000_0000,
    ensures
        r == axis_step(d as int, s as int, l as int),
        d >= 0 ==> 0 <= r <= d,
        d < 0 ==> d <= r <= 0,
{
    proof {
        lemma_axis_step(d as int, s as int, l as int);
    }
    let a: u64 = if d >= 0 {
        d as u64
    } else {
        (-d) as u64
    };
    assert(a * s <= 0x1_0000_0000 * 0x1_0000_0000) by (nonlinear_arith)
        requires
            a <= 0x1_0000_0000,
            s <= 0x1_0000_0000,
    ;
    let c: u128 = (a as u128 * s as u128 + (l - 1) as u128) / (l as u128);
    if d >= 0 {
        c as i64
    } else {
        -(c as i64)
    }
}

/// Advances `rendered` by one frame of `delta_micros` microseconds toward
/// `target`: no change within the snap distance, otherwise a straight step
/// of `travel(delta_micros)` toward the target, landing on it when the
/// step would reach it.
pub fn move_toward(rendered: &mut Position, target: Position, delta_micros: u64)
    requires
        in_range(old(rendered)@),
        in_range(target@),
    ensures
        final(rendered)@ == step_toward(old(rendered)@, target@, travel(delta_micros as int)),
        in_range(final(rendered)@),
{
    let dx: i64 = target.x - rendered.x;
    let dy: i64 = target.y - rendered.y;
    let dz: i64 = target.z - rendered.z;
    let ax: u64 = if dx >= 0 { dx as u64 } else { (-dx) as u64 };
    let ay: u64 = if dy >= 0 { dy as u64 } else { (-dy) as u64 };
    let az: u64 = if dz >= 0 { dz as u64 } else { (-dz) as u64 };
    proof {
        assert(ax * ax <= 4_000_000_000_000_000_000 && ax * ax == dx * dx) by (nonlinear_arith)
            requires
                ax <= 2_000_000_000,
                ax == dx || ax == -dx,
        ;
        assert(ay * ay <= 4_000_000_000_000_000_000 && ay * ay == dy * dy) by (nonlinear_arith)
            requires
                ay <= 2_000_000_000,
                ay == dy || ay == -dy,
        ;
        assert(az * az <= 4_000_000_000_000_000_000 && az * az == dz * dz) by (nonlinear_arith)
            requires
                az <= 2_000_000_000,
                az == dz || az == -dz,
        ;
    }
    let q: u64 = ax * ax + ay * ay + az * az;
    assert(q == dist_sq(rendered@, target@));
    assert(SNAP_DISTANCE * SNAP_DISTANCE == SNAP_DISTANCE_SQ) by (nonlinear_arith);
    if q <= SNAP_DISTANCE_SQ {
        return;
    }
    let l: u64 = isqrt(q);
    proof {
        lemma_floor_sqrt(q as int);
        if l >= 0x1_0000_0000 {
            lemma_square_le(0x1_0000_0000, l as int);
        }
    }
    let s: u128 = travel_distance(delta_micros);
    if s >= l as u128 {
        *rendered = target;
    } else {
        let s: u64 = s as u64;
        let mx = axis_move(dx, s, l);
        let my = axis_move(dy, s, l);
        let mz = axis_move(dz, s, l);
        *rendered = Position { x: rendered.x + mx, y: rendered.y + my, z: rendered.z + mz };
    }
}

} // verus!
