//! The pairwise step of a tick: inverse-square attraction between separated
//! bodies and impulse-based resolution of overlapping ones.
use vstd::prelude::*;
use crate::body::{all_wf, clamp_vec, lemma_mass_bounds, Body, Vec2, MAX_MASS, MAX_RADIUS};
use crate::fixed::{
    abs, clamp, clamp_wide, div_trunc, isqrt, lemma_isqrt, lemma_tdiv_bound, sqrt_floor, tdiv, LIMIT, SCALE,
};

verus! {

/// If `|a| <= b * q` then dividing by `b` leaves at most `q`.
pub proof fn lemma_tdiv_scaled(a: int, b: int, q: int)
    requires
        b >= 1,
        abs(a) <= b * q,
    ensures
        abs(tdiv(a, b)) <= q,
{
    let n = abs(a);
    assert(n / b <= q) by (nonlinear_arith)
        requires
            b >= 1,
            0 <= n <= b * q,
    ;
    lemma_tdiv_bound(a, b);
}

pub proof fn lemma_mul_abs(a: int, b: int, x: int, y: int)
    requires
        abs(a) <= x,
        abs(b) <= y,
    ensures
        abs(a * b) <= x * y,
{
    assert(abs(a * b) == abs(a) * abs(b)) by (nonlinear_arith);
    assert(abs(a) * abs(b) <= x * y) by (nonlinear_arith)
        requires
            0 <= abs(a) <= x,
            0 <= abs(b) <= y,
    ;
}

/// Offset of body `j` from body `i` along x.
pub open spec fn dx(s: Seq<Body>, i: int, j: int) -> int {
    s[j].pos.x - s[i].pos.x
}

/// Offset of body `j` from body `i` along y.
pub open spec fn dy(s: Seq<Body>, i: int, j: int) -> int {
    s[j].pos.y - s[i].pos.y
}

/// Squared distance between the centres of bodies `i` and `j`.
pub open spec fn dist2(s: Seq<Body>, i: int, j: int) -> int {
    dx(s, i, j) * dx(s, i, j) + dy(s, i, j) * dy(s, i, j)
}

/// Distance between the centres of bodies `i` and `j`, rounded down.
pub open spec fn distance(s: Seq<Body>, i: int, j: int) -> int {
    isqrt(dist2(s, i, j))
}

/// Acceleration component that a body of mass `m` at offset `r` exerts, where
/// `d2` is the squared distance and `d` the distance: `m * r / (d2 * d)`.
pub open spec fn pull(m: int, r: int, d2: int, d: int) -> int {
    tdiv(m * r * (SCALE * SCALE), d2 * d)
}

/// Bodies `i` and `j` after each adds the other's attraction to its acceleration:
/// the same offset vector, scaled by the other body's mass, with opposite signs.
/// Bodies that do not touch are more than two ticks apart, so the divisor
/// `d2 * d` is positive and needs no floor.
pub open spec fn attract(s: Seq<Body>, i: int, j: int) -> Seq<Body> {
    let bi = s[i];
    let bj = s[j];
    let rx = dx(s, i, j);
    let ry = dy(s, i, j);
    let d2 = dist2(s, i, j);
    let d = distance(s, i, j);
    let ai = clamp_vec(bi.acc.x + pull(bj.mass as int, rx, d2, d), bi.acc.y + pull(bj.mass as int, ry, d2, d));
    let aj = clamp_vec(bj.acc.x - pull(bi.mass as int, rx, d2, d), bj.acc.y - pull(bi.mass as int, ry, d2, d));
    s.update(i, Body { acc: ai, ..bi }).update(j, Body { acc: aj, ..bj })
}

/// Component of the unit normal from body `i` to body `j`, in fixed point.
pub open spec fn normal(r: int, d: int) -> int {
    tdiv(r * SCALE, d)
}

/// Relative velocity of body `j` with respect to body `i` along the normal.
pub open spec fn approach_speed(s: Seq<Body>, i: int, j: int, d: int) -> int {
    let nx = normal(dx(s, i, j), d);
    let ny = normal(dy(s, i, j), d);
    tdiv((s[j].vel.x - s[i].vel.x) * nx + (s[j].vel.y - s[i].vel.y) * ny, SCALE as int)
}

/// Bodies `i` and `j` after resolving their overlap: nothing changes when the
/// distance is zero or when they already separate; otherwise an impulse of
/// `(1 + e)` times the approach speed is shared in inverse proportion to the
/// masses, and the penetration depth is split the same way, pushing `i`
/// against the normal and `j` along it.
pub open spec fn resolve_spec(s: Seq<Body>, i: int, j: int, d: int, depth: int, e: int) -> Seq<Body> {
    if d == 0 {
        s
    } else {
        let vn = approach_speed(s, i, j, d);
        if vn > 0 {
            s
        } else {
            let bi = s[i];
            let bj = s[j];
            let nx = normal(dx(s, i, j), d);
            let ny = normal(dy(s, i, j), d);
            let m = bi.mass + bj.mass;
            let k = SCALE + e;
            let dv1 = tdiv(k * vn * bj.mass, m * SCALE as int);
            let dv2 = tdiv(-(k * vn * bi.mass), m * SCALE as int);
            let dp1 = tdiv(depth * bj.mass, m);
            let dp2 = tdiv(depth * bi.mass, m);
            let ni = Body {
                pos: clamp_vec(bi.pos.x - tdiv(dp1 * nx, SCALE as int), bi.pos.y - tdiv(dp1 * ny, SCALE as int)),
                vel: clamp_vec(bi.vel.x + tdiv(dv1 * nx, SCALE as int), bi.vel.y + tdiv(dv1 * ny, SCALE as int)),
                ..bi
            };
            let nj = Body {
                pos: clamp_vec(bj.pos.x + tdiv(dp2 * nx, SCALE as int), bj.pos.y + tdiv(dp2 * ny, SCALE as int)),
                vel: clamp_vec(bj.vel.x + tdiv(dv2 * nx, SCALE as int), bj.vel.y + tdiv(dv2 * ny, SCALE as int)),
                ..bj
            };
            s.update(i, ni).update(j, nj)
        }
    }
}

/// The interaction of the pair `(i, j)` within a tick: bodies that touch or
/// overlap are resolved as a collision, others attract each other.
pub open spec fn interact(s: Seq<Body>, i: int, j: int, e: int) -> Seq<Body> {
    let d = distance(s, i, j);
    let reach = s[i].radius + s[j].radius;
    if d <= reach {
        resolve_spec(s, i, j, d, reach - d, e)
    } else {
        attract(s, i, j)
    }
}

/// Bounds on the offset between two well-formed bodies and on its length.
proof fn lemma_offsets(s: Seq<Body>, i: int, j: int)
    requires
        0 <= i < s.len(),
        0 <= j < s.len(),
        all_wf(s),
    ensures
        abs(dx(s, i, j)) <= 2 * LIMIT,
        abs(dy(s, i, j)) <= 2 * LIMIT,
        0 <= dist2(s, i, j) <= 8 * LIMIT * LIMIT,
        0 <= distance(s, i, j) <= 3 * LIMIT,
        abs(dx(s, i, j)) <= distance(s, i, j),
        abs(dy(s, i, j)) <= distance(s, i, j),
        crate::fixed::is_isqrt(dist2(s, i, j), distance(s, i, j)),
        s[i].wf(),
        s[j].wf(),
{
    assert(s[i].wf());
    assert(s[j].wf());
    let rx = dx(s, i, j);
    let ry = dy(s, i, j);
    let d2 = dist2(s, i, j);
    lemma_mul_abs(rx, rx, 2 * LIMIT, 2 * LIMIT);
    lemma_mul_abs(ry, ry, 2 * LIMIT, 2 * LIMIT);
    assert(rx * rx >= 0 && ry * ry >= 0) by (nonlinear_arith);
    assert(abs(rx * rx) == rx * rx);
    lemma_isqrt(d2);
    let d = distance(s, i, j);
    assert(d <= 3 * LIMIT) by (nonlinear_arith)
        requires
            0 <= d,
            d * d <= d2,
            d2 <= 8 * LIMIT * LIMIT,
    ;
    assert(abs(rx) <= d) by (nonlinear_arith)
        requires
            0 <= d,
            rx * rx <= d2,
            d2 < (d + 1) * (d + 1),
    ;
    assert(abs(ry) <= d) by (nonlinear_arith)
        requires
            0 <= d,
            ry * ry <= d2,
            d2 < (d + 1) * (d + 1),
    ;
}


/// Adds to bodies `i` and `j` their mutual attraction, for a pair that does
/// not touch.
fn attract_pair(bodies: &mut Vec<Body>, i: usize, j: usize, d2: i128, d: i128)
    requires
        i < old(bodies).len(),
        j < old(bodies).len(),
        i != j,
        all_wf(old(bodies)@),
        d2 == dist2(old(bodies)@, i as int, j as int),
        d == distance(old(bodies)@, i as int, j as int),
        d > old(bodies)@[i as int].radius + old(bodies)@[j as int].radius,
    ensures
        final(bodies)@ == attract(old(bodies)@, i as int, j as int),
        all_wf(final(bodies)@),
{
    let ghost s = bodies@;
    proof {
        lemma_offsets(s, i as int, j as int);
        lemma_mass_bounds(s[i as int].radius as int);
        lemma_mass_bounds(s[j as int].radius as int);
    }
    let bi = bodies[i];
    let bj = bodies[j];
    let rx: i128 = bj.pos.x as i128 - bi.pos.x as i128;
    let ry: i128 = bj.pos.y as i128 - bi.pos.y as i128;
    let s2: i128 = 1_000_000_000_000;
    assert(s2 == SCALE * SCALE);
    proof {
        assert(d2 * d >= 1) by (nonlinear_arith)
            requires
                d >= 1,
                d2 >= d * d,
        ;
        assert(d2 * d <= 24 * LIMIT * LIMIT * LIMIT) by (nonlinear_arith)
            requires
                0 <= d <= 3 * LIMIT,
                0 <= d2 <= 8 * LIMIT * LIMIT,
        ;
        lemma_mul_abs(bi.mass as int, rx as int, MAX_MASS as int, 2 * LIMIT);
        lemma_mul_abs(bi.mass as int, ry as int, MAX_MASS as int, 2 * LIMIT);
        lemma_mul_abs(bj.mass as int, rx as int, MAX_MASS as int, 2 * LIMIT);
        lemma_mul_abs(bj.mass as int, ry as int, MAX_MASS as int, 2 * LIMIT);
        lemma_mul_abs(bi.mass * rx, s2 as int, MAX_MASS * 2 * LIMIT, s2 as int);
        lemma_mul_abs(bi.mass * ry, s2 as int, MAX_MASS * 2 * LIMIT, s2 as int);
        lemma_mul_abs(bj.mass * rx, s2 as int, MAX_MASS * 2 * LIMIT, s2 as int);
        lemma_mul_abs(bj.mass * ry, s2 as int, MAX_MASS * 2 * LIMIT, s2 as int);
    }
    let den: i128 = d2 * d;
    let pix = div_trunc(bj.mass as i128 * rx * s2, den);
    let piy = div_trunc(bj.mass as i128 * ry * s2, den);
    let pjx = div_trunc(bi.mass as i128 * rx * s2, den);
    let pjy = div_trunc(bi.mass as i128 * ry * s2, den);
    let ai = Vec2 { x: clamp_wide(bi.acc.x as i128 + pix), y: clamp_wide(bi.acc.y as i128 + piy) };
    let aj = Vec2 { x: clamp_wide(bj.acc.x as i128 - pjx), y: clamp_wide(bj.acc.y as i128 - pjy) };
    bodies.set(i, Body { acc: ai, ..bi });
    bodies.set(j, Body { acc: aj, ..bj });
    proof {
        assert(bodies@ =~= attract(s, i as int, j as int));
        assert(all_wf(bodies@));
    }
}


/// Resolves the overlap of bodies `i` and `j`, given the distance between
/// their centres, how deep they overlap and the coefficient of restitution
/// (in fixed point, from zero for inelastic to `SCALE` for elastic). Only
/// bodies `i` and `j` change.
pub fn resolve(bodies: &mut Vec<Body>, i: usize, j: usize, distance: i64, depth: i64, restitution: i64)
    requires
        i < old(bodies).len(),
        j < old(bodies).len(),
        i != j,
        all_wf(old(bodies)@),
        distance == crate::physics::distance(old(bodies)@, i as int, j as int),
        0 <= depth <= 2 * MAX_RADIUS,
        0 <= restitution <= SCALE,
    ensures
        final(bodies)@ == resolve_spec(old(bodies)@, i as int, j as int, distance as int, depth as int, restitution as int),
        all_wf(final(bodies)@),
{
    let ghost s = bodies@;
    if distance == 0 {
        return;
    }
    proof {
        lemma_offsets(s, i as int, j as int);
        lemma_mass_bounds(s[i as int].radius as int);
        lemma_mass_bounds(s[j as int].radius as int);
    }
    let bi = bodies[i];
    let bj = bodies[j];
    let d: i128 = distance as i128;
    let sc: i128 = SCALE as i128;
    let rx: i128 = bj.pos.x as i128 - bi.pos.x as i128;
    let ry: i128 = bj.pos.y as i128 - bi.pos.y as i128;
    proof {
        lemma_mul_abs(rx as int, sc as int, d as int, sc as int);
        lemma_mul_abs(ry as int, sc as int, d as int, sc as int);
        lemma_tdiv_scaled(rx * sc, d as int, sc as int);
        lemma_tdiv_scaled(ry * sc, d as int, sc as int);
    }
    let nx = div_trunc(rx * sc, d);
    let ny = div_trunc(ry * sc, d);
    let rvx: i128 = bj.vel.x as i128 - bi.vel.x as i128;
    let rvy: i128 = bj.vel.y as i128 - bi.vel.y as i128;
    proof {
        lemma_mul_abs(rvx as int, nx as int, 2 * LIMIT, sc as int);
        lemma_mul_abs(rvy as int, ny as int, 2 * LIMIT, sc as int);
        lemma_tdiv_scaled(rvx * nx + rvy * ny, sc as int, 4 * LIMIT);
    }
    let vn = div_trunc(rvx * nx + rvy * ny, sc);
    if vn > 0 {
        return;
    }
    let m: i128 = bi.mass as i128 + bj.mass as i128;
    let k: i128 = sc + restitution as i128;
    proof {
        lemma_mul_abs(k as int, vn as int, 2 * sc, 4 * LIMIT);
        lemma_mul_abs(k * vn, bj.mass as int, 2 * sc * 4 * LIMIT, bj.mass as int);
        lemma_mul_abs(k * vn, bi.mass as int, 2 * sc * 4 * LIMIT, bi.mass as int);
        assert(2 * sc * 4 * LIMIT * bj.mass <= (m * sc) * (8 * LIMIT)) by (nonlinear_arith)
            requires
                0 <= bj.mass <= m,
                sc >= 0,
        ;
        assert(2 * sc * 4 * LIMIT * bi.mass <= (m * sc) * (8 * LIMIT)) by (nonlinear_arith)
            requires
                0 <= bi.mass <= m,
                sc >= 0,
        ;
        assert(m * sc >= 1) by (nonlinear_arith)
            requires
                m >= 1,
                sc >= 1,
        ;
        lemma_tdiv_scaled(k * vn * bj.mass, m * sc, 8 * LIMIT);
        lemma_tdiv_scaled(-(k * vn * bi.mass), m * sc, 8 * LIMIT);
        lemma_mul_abs(depth as int, bj.mass as int, 2 * MAX_RADIUS, MAX_MASS as int);
        lemma_mul_abs(depth as int, bi.mass as int, 2 * MAX_RADIUS, MAX_MASS as int);
        lemma_tdiv_bound(depth * bj.mass, m as int);
        lemma_tdiv_bound(depth * bi.mass, m as int);
    }
    let dv1 = div_trunc(k * vn * bj.mass as i128, m * sc);
    let dv2 = div_trunc(-(k * vn * bi.mass as i128), m * sc);
    let dp1 = div_trunc(depth as i128 * bj.mass as i128, m);
    let dp2 = div_trunc(depth as i128 * bi.mass as i128, m);
    proof {
        lemma_mul_abs(dv1 as int, nx as int, 8 * LIMIT, sc as int);
        lemma_mul_abs(dv1 as int, ny as int, 8 * LIMIT, sc as int);
        lemma_mul_abs(dv2 as int, nx as int, 8 * LIMIT, sc as int);
        lemma_mul_abs(dv2 as int, ny as int, 8 * LIMIT, sc as int);
        lemma_mul_abs(dp1 as int, nx as int, 2 * MAX_RADIUS * MAX_MASS, sc as int);
        lemma_mul_abs(dp1 as int, ny as int, 2 * MAX_RADIUS * MAX_MASS, sc as int);
        lemma_mul_abs(dp2 as int, nx as int, 2 * MAX_RADIUS * MAX_MASS, sc as int);
        lemma_mul_abs(dp2 as int, ny as int, 2 * MAX_RADIUS * MAX_MASS, sc as int);
        lemma_tdiv_bound(dv1 * nx, sc as int);
        lemma_tdiv_bound(dv1 * ny, sc as int);
        lemma_tdiv_bound(dv2 * nx, sc as int);
        lemma_tdiv_bound(dv2 * ny, sc as int);
        lemma_tdiv_bound(dp1 * nx, sc as int);
        lemma_tdiv_bound(dp1 * ny, sc as int);
        lemma_tdiv_bound(dp2 * nx, sc as int);
        lemma_tdiv_bound(dp2 * ny, sc as int);
    }
    let ni = Body {
        pos: Vec2 {
            x: clamp_wide(bi.pos.x as i128 - div_trunc(dp1 * nx, sc)),
            y: clamp_wide(bi.pos.y as i128 - div_trunc(dp1 * ny, sc)),
        },
        vel: Vec2 {
            x: clamp_wide(bi.vel.x as i128 + div_trunc(dv1 * nx, sc)),
            y: clamp_wide(bi.vel.y as i128 + div_trunc(dv1 * ny, sc)),
        },
        ..bi
    };
    let nj = Body {
        pos: Vec2 {
            x: clamp_wide(bj.pos.x as i128 + div_trunc(dp2 * nx, sc)),
            y: clamp_wide(bj.pos.y as i128 + div_trunc(dp2 * ny, sc)),
        },
        vel: Vec2 {
            x: clamp_wide(bj.vel.x as i128 + div_trunc(dv2 * nx, sc)),
            y: clamp_wide(bj.vel.y as i128 + div_trunc(dv2 * ny, sc)),
        },
        ..bj
    };
    bodies.set(i, ni);
    bodies.set(j, nj);
    proof {
        assert(bodies@ =~= resolve_spec(s, i as int, j as int, distance as int, depth as int, restitution as int));
        assert(all_wf(bodies@));
    }
}


/// Lets bodies `i` and `j` interact for one tick: a collision when they
/// touch or overlap, mutual attraction otherwise.
pub fn interact_pair(bodies: &mut Vec<Body>, i: usize, j: usize, restitution: i64)
    requires
        i < old(bodies).len(),
        j < old(bodies).len(),
        i != j,
        all_wf(old(bodies)@),
        0 <= restitution <= SCALE,
    ensures
        final(bodies)@ == interact(old(bodies)@, i as int, j as int, restitution as int),
        all_wf(final(bodies)@),
{
    let ghost s = bodies@;
    proof {
        lemma_offsets(s, i as int, j as int);
    }
    let rx: i128 = bodies[j].pos.x as i128 - bodies[i].pos.x as i128;
    let ry: i128 = bodies[j].pos.y as i128 - bodies[i].pos.y as i128;
    proof {
        lemma_mul_abs(rx as int, rx as int, 2 * LIMIT, 2 * LIMIT);
        lemma_mul_abs(ry as int, ry as int, 2 * LIMIT, 2 * LIMIT);
    }
    let d2: i128 = rx * rx + ry * ry;
    let d: i128 = sqrt_floor(d2);
    let reach: i64 = bodies[i].radius + bodies[j].radius;
    if d <= reach as i128 {
        resolve(bodies, i, j, d as i64, reach - d as i64, restitution);
    } else {
        attract_pair(bodies, i, j, d2, d);
    }
}


/// Resolution changes nothing when the centres coincide or when the bodies
/// already separate along the normal.
pub proof fn lemma_resolve_degenerate(s: Seq<Body>, i: int, j: int, d: int, depth: int, e: int)
    requires
        d == 0 || approach_speed(s, i, j, d) > 0,
    ensures
        resolve_spec(s, i, j, d, depth, e) == s,
{
}

/// Remainder of truncating division is smaller than the divisor.
proof fn lemma_tdiv_rem(a: int, b: int)
    requires
        b >= 1,
    ensures
        abs(a - tdiv(a, b) * b) < b,
{
    if a >= 0 {
        assert(0 <= a - (a / b) * b < b) by (nonlinear_arith)
            requires
                a >= 0,
                b >= 1,
        ;
    } else {
        let n = -a;
        assert(0 <= n - (n / b) * b < b) by (nonlinear_arith)
            requires
                n >= 0,
                b >= 1,
        ;
        let q = n / b;
        assert(tdiv(a, b) == -q);
        assert(a - (-q) * b == -(n - q * b)) by (nonlinear_arith)
            requires
                a == -n,
        ;
    }
}

/// The pairwise attraction is momentum-neutral: for the same offset `r`,
/// body `i` gains `pull(m_j, r)` and body `j` loses `pull(m_i, r)`, so the
/// mass-weighted contributions `m_i * pull(m_j, r) - m_j * pull(m_i, r)`
/// cancel exactly for equal masses and otherwise up to rounding, by less than
/// `m_i + m_j`.
pub proof fn lemma_pair_momentum(mi: int, mj: int, r: int, d2: int, d: int)
    requires
        mi >= 1,
        mj >= 1,
        d2 * d >= 1,
    ensures
        abs(mi * pull(mj, r, d2, d) - mj * pull(mi, r, d2, d)) < mi + mj,
        mi == mj ==> mi * pull(mj, r, d2, d) - mj * pull(mi, r, d2, d) == 0,
{
    let k = d2 * d;
    let x = r * (SCALE * SCALE);
    let q1 = pull(mj, r, d2, d);
    let q2 = pull(mi, r, d2, d);
    let ss = SCALE * SCALE;
    assert(mj * r * ss == mj * (r * ss)) by (nonlinear_arith);
    assert(mi * r * ss == mi * (r * ss)) by (nonlinear_arith);
    lemma_tdiv_rem(mj * x, k);
    lemma_tdiv_rem(mi * x, k);
    let e1 = mj * x - q1 * k;
    let e2 = mi * x - q2 * k;
    assert((mi * q1 - mj * q2) * k == mj * e2 - mi * e1) by (nonlinear_arith)
        requires
            e1 == mj * x - q1 * k,
            e2 == mi * x - q2 * k,
    ;
    assert(abs(mj * e2 - mi * e1) < (mi + mj) * k) by (nonlinear_arith)
        requires
            abs(e1) < k,
            abs(e2) < k,
            mi >= 1,
            mj >= 1,
    ;
    assert(abs(mi * q1 - mj * q2) < mi + mj) by (nonlinear_arith)
        requires
            abs((mi * q1 - mj * q2) * k) < (mi + mj) * k,
            k >= 1,
    ;
}


/// Relative velocity of body `j` with respect to body `i`, projected on the
/// vector `(rx, ry)` (unnormalised).
pub open spec fn closing(s: Seq<Body>, i: int, j: int, rx: int, ry: int) -> int {
    (s[j].vel.x - s[i].vel.x) * rx + (s[j].vel.y - s[i].vel.y) * ry
}

/// Moving a stored value by `+tdiv(f * n, SCALE)` with `f >= 0` moves it in
/// the direction of `r` when `n` has the sign of `r`; moving it by the
/// opposite amount moves it against `r`.
proof fn lemma_axis_push(v: int, f: int, n: int, r: int)
    requires
        abs(v) <= LIMIT,
        f >= 0,
        n * r >= 0,
    ensures
        (clamp(v + tdiv(f * n, SCALE as int)) - v) * r >= 0,
        (clamp(v - tdiv(f * n, SCALE as int)) - v) * r <= 0,
{
    let t = tdiv(f * n, SCALE as int);
    if n > 0 {
        assert(f * n >= 0) by (nonlinear_arith)
            requires
                f >= 0,
                n > 0,
        ;
        assert(r >= 0) by (nonlinear_arith)
            requires
                n > 0,
                n * r >= 0,
        ;
        lemma_tdiv_bound(f * n, SCALE as int);
        assert(clamp(v + t) - v >= 0);
        assert(clamp(v - t) - v <= 0);
        assert((clamp(v + t) - v) * r >= 0) by (nonlinear_arith)
            requires
                clamp(v + t) - v >= 0,
                r >= 0,
        ;
        assert((clamp(v - t) - v) * r <= 0) by (nonlinear_arith)
            requires
                clamp(v - t) - v <= 0,
                r >= 0,
        ;
    } else if n < 0 {
        assert(f * n <= 0) by (nonlinear_arith)
            requires
                f >= 0,
                n < 0,
        ;
        assert(r <= 0) by (nonlinear_arith)
            requires
                n < 0,
                n * r >= 0,
        ;
        lemma_tdiv_bound(f * n, SCALE as int);
        assert(clamp(v + t) - v <= 0);
        assert(clamp(v - t) - v >= 0);
        assert((clamp(v + t) - v) * r >= 0) by (nonlinear_arith)
            requires
                clamp(v + t) - v <= 0,
                r <= 0,
        ;
        assert((clamp(v - t) - v) * r <= 0) by (nonlinear_arith)
            requires
                clamp(v - t) - v >= 0,
                r <= 0,
        ;
    } else {
        assert(f * n == 0) by (nonlinear_arith)
            requires
                n == 0,
        ;
    }
}

/// A normal component has the sign of the offset it comes from.
proof fn lemma_normal_sign(r: int, d: int)
    requires
        d >= 1,
    ensures
        normal(r, d) * r >= 0,
{
    let a = r * SCALE;
    assert(r >= 0 ==> a >= 0) by (nonlinear_arith)
        requires
            a == r * SCALE,
    ;
    assert(r <= 0 ==> a <= 0) by (nonlinear_arith)
        requires
            a == r * SCALE,
    ;
    lemma_tdiv_bound(a, d);
    let n = normal(r, d);
    assert(n * r >= 0) by (nonlinear_arith)
        requires
            r >= 0 ==> n >= 0,
            r <= 0 ==> n <= 0,
    ;
}

/// Collision resolution never brings two touching bodies closer: along the
/// offset `r` from `i` to `j`, body `i` is only pushed back and body `j` only
/// forward, in position and in velocity. So the distance between the centres
/// does not shrink, and the relative velocity of `j` with respect to `i`
/// projected on `r` does not decrease.
pub proof fn lemma_resolve_separates(s: Seq<Body>, i: int, j: int, e: int)
    requires
        0 <= i < s.len(),
        0 <= j < s.len(),
        i != j,
        all_wf(s),
        0 <= e <= SCALE,
        distance(s, i, j) <= s[i].radius + s[j].radius,
    ensures
        ({
            let d = distance(s, i, j);
            let t = resolve_spec(s, i, j, d, s[i].radius + s[j].radius - d, e);
            &&& dist2(t, i, j) >= dist2(s, i, j)
            &&& distance(t, i, j) >= distance(s, i, j)
            &&& closing(t, i, j, dx(s, i, j), dy(s, i, j)) >= closing(s, i, j, dx(s, i, j), dy(s, i, j))
        }),
{
    let d = distance(s, i, j);
    let depth = s[i].radius + s[j].radius - d;
    let t = resolve_spec(s, i, j, d, depth, e);
    lemma_offsets(s, i, j);
    if d == 0 || approach_speed(s, i, j, d) > 0 {
        return;
    }
    let vn = approach_speed(s, i, j, d);
    let bi = s[i];
    let bj = s[j];
    let rx = dx(s, i, j);
    let ry = dy(s, i, j);
    let nx = normal(rx, d);
    let ny = normal(ry, d);
    let m = bi.mass + bj.mass;
    let k = SCALE + e;
    let dv1 = tdiv(k * vn * bj.mass, m * SCALE);
    let dv2 = tdiv(-(k * vn * bi.mass), m * SCALE);
    let dp1 = tdiv(depth * bj.mass, m);
    let dp2 = tdiv(depth * bi.mass, m);
    lemma_mass_bounds(bi.radius as int);
    lemma_mass_bounds(bj.radius as int);
    assert(k * vn * bj.mass <= 0) by (nonlinear_arith)
        requires
            k >= 1,
            vn <= 0,
            bj.mass >= 1,
    ;
    assert(-(k * vn * bi.mass) >= 0) by (nonlinear_arith)
        requires
            k >= 1,
            vn <= 0,
            bi.mass >= 1,
    ;
    assert(depth * bj.mass >= 0 && depth * bi.mass >= 0) by (nonlinear_arith)
        requires
            depth >= 0,
            bj.mass >= 1,
            bi.mass >= 1,
    ;
    assert(m * SCALE >= 1) by (nonlinear_arith)
        requires
            m >= 2,
    ;
    lemma_tdiv_bound(k * vn * bj.mass, m * SCALE);
    lemma_tdiv_bound(-(k * vn * bi.mass), m * SCALE);
    lemma_tdiv_bound(depth * bj.mass, m);
    lemma_tdiv_bound(depth * bi.mass, m);
    lemma_normal_sign(rx, d);
    lemma_normal_sign(ry, d);
    let f1 = -dv1;
    assert(dv1 * nx == -(f1 * nx) && dv1 * ny == -(f1 * ny)) by (nonlinear_arith)
        requires
            f1 == -dv1,
    ;
    assert(tdiv(dv1 * nx, SCALE as int) == -tdiv(f1 * nx, SCALE as int));
    assert(tdiv(dv1 * ny, SCALE as int) == -tdiv(f1 * ny, SCALE as int));
    lemma_axis_push(bi.pos.x as int, dp1, nx, rx);
    lemma_axis_push(bi.pos.y as int, dp1, ny, ry);
    lemma_axis_push(bj.pos.x as int, dp2, nx, rx);
    lemma_axis_push(bj.pos.y as int, dp2, ny, ry);
    lemma_axis_push(bi.vel.x as int, f1, nx, rx);
    lemma_axis_push(bi.vel.y as int, f1, ny, ry);
    lemma_axis_push(bj.vel.x as int, dv2, nx, rx);
    lemma_axis_push(bj.vel.y as int, dv2, ny, ry);
    let ti = t[i];
    let tj = t[j];
    let cx = (tj.pos.x - bj.pos.x) - (ti.pos.x - bi.pos.x);
    let cy = (tj.pos.y - bj.pos.y) - (ti.pos.y - bi.pos.y);
    assert(cx * rx >= 0) by (nonlinear_arith)
        requires
            (tj.pos.x - bj.pos.x) * rx >= 0,
            (ti.pos.x - bi.pos.x) * rx <= 0,
            cx == (tj.pos.x - bj.pos.x) - (ti.pos.x - bi.pos.x),
    ;
    assert(cy * ry >= 0) by (nonlinear_arith)
        requires
            (tj.pos.y - bj.pos.y) * ry >= 0,
            (ti.pos.y - bi.pos.y) * ry <= 0,
            cy == (tj.pos.y - bj.pos.y) - (ti.pos.y - bi.pos.y),
    ;
    assert(dx(t, i, j) == rx + cx);
    assert(dy(t, i, j) == ry + cy);
    assert((rx + cx) * (rx + cx) + (ry + cy) * (ry + cy) >= rx * rx + ry * ry) by (nonlinear_arith)
        requires
            cx * rx >= 0,
            cy * ry >= 0,
    ;
    assert(dist2(s, i, j) >= 0) by (nonlinear_arith)
        requires
            dist2(s, i, j) == rx * rx + ry * ry,
    ;
    crate::fixed::lemma_isqrt_monotone(dist2(s, i, j), dist2(t, i, j));
    let wx = (tj.vel.x - bj.vel.x) - (ti.vel.x - bi.vel.x);
    let wy = (tj.vel.y - bj.vel.y) - (ti.vel.y - bi.vel.y);
    assert(wx * rx >= 0) by (nonlinear_arith)
        requires
            (tj.vel.x - bj.vel.x) * rx >= 0,
            (ti.vel.x - bi.vel.x) * rx <= 0,
            wx == (tj.vel.x - bj.vel.x) - (ti.vel.x - bi.vel.x),
    ;
    assert(wy * ry >= 0) by (nonlinear_arith)
        requires
            (tj.vel.y - bj.vel.y) * ry >= 0,
            (ti.vel.y - bi.vel.y) * ry <= 0,
            wy == (tj.vel.y - bj.vel.y) - (ti.vel.y - bi.vel.y),
    ;
    assert(closing(t, i, j, rx, ry) == closing(s, i, j, rx, ry) + wx * rx + wy * ry) by (nonlinear_arith)
        requires
            closing(t, i, j, rx, ry) == (tj.vel.x - ti.vel.x) * rx + (tj.vel.y - ti.vel.y) * ry,
            closing(s, i, j, rx, ry) == (bj.vel.x - bi.vel.x) * rx + (bj.vel.y - bi.vel.y) * ry,
            wx == (tj.vel.x - bj.vel.x) - (ti.vel.x - bi.vel.x),
            wy == (tj.vel.y - bj.vel.y) - (ti.vel.y - bi.vel.y),
    ;
}

} // verus!
