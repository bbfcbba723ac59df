//! The simulation: a collection of bodies advanced one tick at a time.
use vstd::prelude::*;
use rand::rngs::StdRng;
use rand::Rng;
use crate::body::{all_wf, mass_of, Body, Vec2, MAX_RADIUS};
use crate::fixed::{abs, clamp, clamp_wide, div_trunc, lemma_tdiv_bound, tdiv, LIMIT, SCALE};
use crate::physics::{interact, interact_pair, lemma_mul_abs, lemma_tdiv_scaled};

verus! {

#[verifier::external_type_specification]
#[verifier::external_body]
pub struct ExStdRng(StdRng);

/// Relies on rand's `Rng::gen_range` over an inclusive range: the value it
/// draws lies within the range, which must not be empty.
#[verifier::external_body]
fn draw(rng: &mut StdRng, lo: i64, hi: i64) -> (r: i64)
    requires
        lo <= hi,
    ensures
        lo <= r <= hi,
{
    rng.gen_range(lo..=hi)
}

/// Radius of the anchor body (twenty world units).
pub const ANCHOR_RADIUS: i64 = 20_000_000;

/// Tunable parameters of a simulation, all in fixed point.
#[derive(Clone, Copy, Debug, PartialEq, Eq, Structural)]
pub struct SimConfig {
    /// Bound on each velocity component of a newly drawn body.
    pub speed: i64,
    /// Global multiplier of all accelerations.
    pub gravity: i64,
    /// Timestep.
    pub dt: i64,
    /// Radius of newly drawn bodies.
    pub default_radius: i64,
    /// Coefficient of restitution, from zero (inelastic) to `SCALE` (elastic).
    pub restitution: i64,
    /// Integration advances by `dt / dt_divisor`.
    pub dt_divisor: i64,
    /// Whether the first body is a heavy stationary anchor at the origin.
    pub anchor: bool,
}

impl SimConfig {
    /// A heavy anchor at the origin, partly elastic collisions (0.7) and
    /// integration by a tenth of the timestep; meant to run with walls.
    pub fn anchored() -> (r: SimConfig)
        ensures
            r.wf(),
            r == (SimConfig {
                speed: 5_000_000,
                gravity: 5_050_000,
                dt: 50_000,
                default_radius: 1_000_000,
                restitution: 700_000,
                dt_divisor: 10,
                anchor: true,
            }),
    {
        SimConfig {
            speed: 5_000_000,
            gravity: 5_050_000,
            dt: 50_000,
            default_radius: 1_000_000,
            restitution: 700_000,
            dt_divisor: 10,
            anchor: true,
        }
    }

    /// No anchor, inelastic collisions and integration by the whole
    /// timestep; meant to run without walls.
    pub fn open_space() -> (r: SimConfig)
        ensures
            r.wf(),
            r == (SimConfig {
                speed: 1_000_000,
                gravity: 1_050_000,
                dt: 50_000,
                default_radius: 1_000_000,
                restitution: 0,
                dt_divisor: 1,
                anchor: false,
            }),
    {
        SimConfig {
            speed: 1_000_000,
            gravity: 1_050_000,
            dt: 50_000,
            default_radius: 1_000_000,
            restitution: 0,
            dt_divisor: 1,
            anchor: false,
        }
    }

    pub open spec fn wf(self) -> bool {
        &&& 0 <= self.speed <= LIMIT
        &&& 0 <= self.gravity <= LIMIT
        &&& 0 <= self.dt <= LIMIT
        &&& 0 < self.default_radius <= MAX_RADIUS
        &&& 0 <= self.restitution <= SCALE
        &&& 1 <= self.dt_divisor <= LIMIT
    }
}

/// The anchor: radius `ANCHOR_RADIUS`, at rest at the origin.
pub open spec fn anchor_body() -> Body {
    Body {
        pos: Vec2 { x: 0, y: 0 },
        vel: Vec2 { x: 0, y: 0 },
        acc: Vec2 { x: 0, y: 0 },
        radius: ANCHOR_RADIUS,
        mass: mass_of(ANCHOR_RADIUS as int) as i64,
    }
}

/// Body `k` of a freshly drawn population: the anchor in the first slot when
/// the configuration asks for one, otherwise a body of the default radius
/// placed within the half-extents with each velocity component within the
/// speed bound.
pub open spec fn placed(b: Body, k: int, hw: int, hh: int, c: SimConfig) -> bool {
    if c.anchor && k == 0 {
        b == anchor_body()
    } else {
        &&& b.radius == c.default_radius
        &&& b.mass == mass_of(c.default_radius as int)
        &&& abs(b.pos.x as int) <= hw
        &&& abs(b.pos.y as int) <= hh
        &&& abs(b.vel.x as int) <= c.speed
        &&& abs(b.vel.y as int) <= c.speed
        &&& b.acc == Vec2 { x: 0, y: 0 }
    }
}

/// The body with its acceleration cleared.
pub open spec fn without_acc(b: Body) -> Body {
    Body { acc: Vec2 { x: 0, y: 0 }, ..b }
}

pub open spec fn zero_acc(s: Seq<Body>) -> Seq<Body> {
    s.map_values(|b: Body| without_acc(b))
}

/// The pairs `(i, j)`, `(i, j + 1)`, ..., then every later `i` with all its
/// `j > i`, processed in that order among `n` bodies.
pub open spec fn sweep(s: Seq<Body>, n: int, e: int, i: int, j: int) -> Seq<Body>
    decreases n - i, n - j,
{
    if i >= n {
        s
    } else if j >= n {
        sweep(s, n, e, i + 1, i + 2)
    } else {
        sweep(interact(s, i, j, e), n, e, i, j + 1)
    }
}

/// One body's integration: velocity gains `acc * gravity * dt_eff`, position
/// gains `vel * dt_eff`, with `dt_eff = dt / dt_divisor`; then, for each axis
/// beyond its bound, velocity is reflected and scaled by 0.9 and position
/// scaled by 0.99.
pub open spec fn integrate(b: Body, c: SimConfig, bounds: Option<(i64, i64)>) -> Body {
    let vx = clamp(b.vel.x + tdiv(b.acc.x * c.gravity * c.dt, SCALE * SCALE * c.dt_divisor));
    let vy = clamp(b.vel.y + tdiv(b.acc.y * c.gravity * c.dt, SCALE * SCALE * c.dt_divisor));
    let px = clamp(b.pos.x + tdiv(vx * c.dt, SCALE * c.dt_divisor));
    let py = clamp(b.pos.y + tdiv(vy * c.dt, SCALE * c.dt_divisor));
    match bounds {
        None => Body { pos: Vec2 { x: px as i64, y: py as i64 }, vel: Vec2 { x: vx as i64, y: vy as i64 }, ..b },
        Some(lim) => {
            let out_x = abs(px) > lim.0;
            let out_y = abs(py) > lim.1;
            Body {
                pos: Vec2 {
                    x: (if out_x { tdiv(99 * px, 100) } else { px }) as i64,
                    y: (if out_y { tdiv(99 * py, 100) } else { py }) as i64,
                },
                vel: Vec2 {
                    x: (if out_x { tdiv(-9 * vx, 10) } else { vx }) as i64,
                    y: (if out_y { tdiv(-9 * vy, 10) } else { vy }) as i64,
                },
                ..b
            }
        },
    }
}

/// The bodies after one tick: accelerations cleared, every pair interacting
/// in order, then every body integrated.
pub open spec fn tick_spec(s: Seq<Body>, c: SimConfig, bounds: Option<(i64, i64)>) -> Seq<Body> {
    sweep(zero_acc(s), s.len() as int, c.restitution as int, 0, 1).map_values(
        |b: Body| integrate(b, c, bounds),
    )
}

/// A collection of bodies under one configuration, with its own source of
/// randomness for drawing new bodies.
pub struct Simulation {
    pub bodies: Vec<Body>,
    pub config: SimConfig,
    pub rng: StdRng,
}

impl Simulation {
    pub open spec fn wf(&self) -> bool {
        &&& self.config.wf()
        &&& all_wf(self.bodies@)
    }
}


/// Integrates one body over one timestep.
pub fn integrate_body(b: Body, c: &SimConfig, bounds: Option<(i64, i64)>) -> (r: Body)
    requires
        b.wf(),
        c.wf(),
    ensures
        r == integrate(b, *c, bounds),
        r.wf(),
{
    let sc: i128 = SCALE as i128;
    let den: i128 = sc * sc * c.dt_divisor as i128;
    proof {
        assert(den >= 1) by (nonlinear_arith)
            requires
                den == sc * sc * c.dt_divisor,
                sc == SCALE,
                c.dt_divisor >= 1,
        ;
        assert(sc * c.dt_divisor >= 1) by (nonlinear_arith)
            requires
                sc == SCALE,
                c.dt_divisor >= 1,
        ;
        lemma_mul_abs(b.acc.x as int, c.gravity as int, LIMIT as int, LIMIT as int);
        lemma_mul_abs(b.acc.y as int, c.gravity as int, LIMIT as int, LIMIT as int);
        lemma_mul_abs(b.acc.x * c.gravity, c.dt as int, LIMIT * LIMIT, LIMIT as int);
        lemma_mul_abs(b.acc.y * c.gravity, c.dt as int, LIMIT * LIMIT, LIMIT as int);
        lemma_tdiv_bound(b.acc.x * c.gravity * c.dt, den as int);
        lemma_tdiv_bound(b.acc.y * c.gravity * c.dt, den as int);
    }
    let vx: i64 = clamp_wide(
        b.vel.x as i128 + div_trunc(b.acc.x as i128 * c.gravity as i128 * c.dt as i128, den),
    );
    let vy: i64 = clamp_wide(
        b.vel.y as i128 + div_trunc(b.acc.y as i128 * c.gravity as i128 * c.dt as i128, den),
    );
    proof {
        lemma_mul_abs(vx as int, c.dt as int, LIMIT as int, LIMIT as int);
        lemma_mul_abs(vy as int, c.dt as int, LIMIT as int, LIMIT as int);
        lemma_tdiv_bound(vx * c.dt, sc * c.dt_divisor);
        lemma_tdiv_bound(vy * c.dt, sc * c.dt_divisor);
    }
    let px: i64 = clamp_wide(b.pos.x as i128 + div_trunc(vx as i128 * c.dt as i128, sc * c.dt_divisor as i128));
    let py: i64 = clamp_wide(b.pos.y as i128 + div_trunc(vy as i128 * c.dt as i128, sc * c.dt_divisor as i128));
    match bounds {
        None => Body { pos: Vec2 { x: px, y: py }, vel: Vec2 { x: vx, y: vy }, ..b },
        Some(lim) => {
            let out_x = (px as i128) < -(lim.0 as i128) || px > lim.0;
            let out_y = (py as i128) < -(lim.1 as i128) || py > lim.1;
            proof {
                lemma_tdiv_bound(99 * px, 100);
                lemma_tdiv_bound(99 * py, 100);
                lemma_tdiv_bound(-9 * vx, 10);
                lemma_tdiv_bound(-9 * vy, 10);
                lemma_tdiv_scaled(99 * px, 100, LIMIT as int);
                lemma_tdiv_scaled(99 * py, 100, LIMIT as int);
                lemma_tdiv_scaled(-9 * vx, 10, LIMIT as int);
                lemma_tdiv_scaled(-9 * vy, 10, LIMIT as int);
            }
            let nx: i64 = if out_x { div_trunc(99 * px as i128, 100) as i64 } else { px };
            let ny: i64 = if out_y { div_trunc(99 * py as i128, 100) as i64 } else { py };
            let wx: i64 = if out_x { div_trunc(-9 * vx as i128, 10) as i64 } else { vx };
            let wy: i64 = if out_y { div_trunc(-9 * vy as i128, 10) as i64 } else { vy };
            Body { pos: Vec2 { x: nx, y: ny }, vel: Vec2 { x: wx, y: wy }, ..b }
        },
    }
}


impl Simulation {
    /// Advances every body by one tick: accelerations are cleared, every pair
    /// `i < j` collides or attracts in order, and every body is integrated,
    /// with soft reflecting walls at `|x| = bounds.0` and `|y| = bounds.1`
    /// when bounds are given. Accelerations stay readable until the next tick.
    pub fn tick(&mut self, bounds: Option<(i64, i64)>)
        requires
            old(self).wf(),
        ensures
            final(self).wf(),
            final(self).config == old(self).config,
            final(self).bodies@ == tick_spec(old(self).bodies@, old(self).config, bounds),
    {
        let ghost s0 = self.bodies@;
        let n = self.bodies.len();
        let mut k: usize = 0;
        while k < n
            invariant
                self.bodies@.len() == n,
                n == s0.len(),
                self.config == old(self).config,
                0 <= k <= n,
                all_wf(self.bodies@),
                forall|m: int| 0 <= m < k ==> self.bodies@[m] == without_acc(s0[m]),
                forall|m: int| k <= m < n ==> self.bodies@[m] == s0[m],
            decreases n - k,
        {
            let b = self.bodies[k];
            assert(self.bodies@[k as int].wf());
            self.bodies.set(k, Body { acc: Vec2::zero(), ..b });
            k = k + 1;
        }
        let ghost z = self.bodies@;
        assert(z =~= zero_acc(s0));
        let e = self.config.restitution;
        let mut i: usize = 0;
        while i < n
            invariant
                self.bodies@.len() == n,
                n == s0.len(),
                self.config.wf(),
                self.config == old(self).config,
                e == self.config.restitution,
                0 <= i <= n,
                all_wf(self.bodies@),
                sweep(self.bodies@, n as int, e as int, i as int, i + 1) == sweep(z, n as int, e as int, 0, 1),
            decreases n - i,
        {
            let mut j: usize = i + 1;
            while j < n
                invariant
                    self.bodies@.len() == n,
                    self.config.wf(),
                    self.config == old(self).config,
                    e == self.config.restitution,
                    i < n,
                    i + 1 <= j <= n,
                    all_wf(self.bodies@),
                    sweep(self.bodies@, n as int, e as int, i as int, j as int) == sweep(z, n as int, e as int, 0, 1),
                decreases n - j,
            {
                interact_pair(&mut self.bodies, i, j, e);
                j = j + 1;
            }
            i = i + 1;
        }
        let ghost w = self.bodies@;
        let mut k: usize = 0;
        while k < n
            invariant
                self.bodies@.len() == n,
                w.len() == n,
                self.config.wf(),
                self.config == old(self).config,
                0 <= k <= n,
                all_wf(self.bodies@),
                all_wf(w),
                forall|m: int| 0 <= m < k ==> self.bodies@[m] == integrate(w[m], self.config, bounds),
                forall|m: int| k <= m < n ==> self.bodies@[m] == w[m],
            decreases n - k,
        {
            let b = self.bodies[k];
            assert(self.bodies@[k as int].wf());
            let nb = integrate_body(b, &self.config, bounds);
            self.bodies.set(k, nb);
            k = k + 1;
        }
        assert(self.bodies@ =~= tick_spec(s0, self.config, bounds));
    }
}


/// Draws `count` bodies: the anchor first when the configuration asks for
/// one, then bodies of the default radius uniformly placed within
/// `[-half_width, half_width] x [-half_height, half_height]` with each
/// velocity component within `[-speed, speed]`.
fn populate(rng: &mut StdRng, count: usize, half_width: i64, half_height: i64, c: &SimConfig) -> (r: Vec<Body>)
    requires
        0 <= half_width <= LIMIT,
        0 <= half_height <= LIMIT,
        c.wf(),
    ensures
        r@.len() == count,
        all_wf(r@),
        forall|k: int| 0 <= k < count ==> placed(#[trigger] r@[k], k, half_width as int, half_height as int, *c),
{
    let mut bodies: Vec<Body> = Vec::with_capacity(count);
    let mut k: usize = 0;
    while k < count
        invariant
            0 <= k <= count,
            bodies@.len() == k,
            c.wf(),
            0 <= half_width <= LIMIT,
            0 <= half_height <= LIMIT,
            all_wf(bodies@),
            forall|m: int| 0 <= m < k ==> placed(#[trigger] bodies@[m], m, half_width as int, half_height as int, *c),
        decreases count - k,
    {
        let b = if c.anchor && k == 0 {
            Body::new(Vec2::zero(), Vec2::zero(), ANCHOR_RADIUS)
        } else {
            let px = draw(rng, -half_width, half_width);
            let py = draw(rng, -half_height, half_height);
            let vx = draw(rng, -c.speed, c.speed);
            let vy = draw(rng, -c.speed, c.speed);
            Body::new(Vec2::new(px, py), Vec2::new(vx, vy), c.default_radius)
        };
        bodies.push(b);
        k = k + 1;
    }
    bodies
}

impl Simulation {
    /// A simulation of `count` freshly drawn bodies.
    pub fn new(count: usize, half_width: i64, half_height: i64, config: SimConfig, rng: StdRng) -> (r: Simulation)
        requires
            0 <= half_width <= LIMIT,
            0 <= half_height <= LIMIT,
            config.wf(),
        ensures
            r.wf(),
            r.config == config,
            r.bodies@.len() == count,
            forall|k: int| 0 <= k < count ==> placed(#[trigger] r.bodies@[k], k, half_width as int, half_height as int, config),
    {
        let mut rng = rng;
        let bodies = populate(&mut rng, count, half_width, half_height, &config);
        Simulation { bodies, config, rng }
    }

    /// A simulation of the given bodies.
    pub fn from_bodies(bodies: Vec<Body>, config: SimConfig, rng: StdRng) -> (r: Simulation)
        requires
            all_wf(bodies@),
            config.wf(),
        ensures
            r.wf(),
            r.config == config,
            r.bodies@ == bodies@,
    {
        Simulation { bodies, config, rng }
    }

    /// Replaces every body by a freshly drawn one within the new half-extents,
    /// keeping the number of bodies and the configuration.
    pub fn reset(&mut self, half_width: i64, half_height: i64)
        requires
            old(self).wf(),
            0 <= half_width <= LIMIT,
            0 <= half_height <= LIMIT,
        ensures
            final(self).wf(),
            final(self).config == old(self).config,
            final(self).bodies@.len() == old(self).bodies@.len(),
            forall|k: int| 0 <= k < final(self).bodies@.len() ==> placed(#[trigger] final(self).bodies@[k], k, half_width as int, half_height as int, old(self).config),
    {
        let n = self.bodies.len();
        let bodies = populate(&mut self.rng, n, half_width, half_height, &self.config);
        self.bodies = bodies;
    }

    /// Number of bodies.
    pub fn len(&self) -> (r: usize)
        ensures
            r == self.bodies@.len(),
    {
        self.bodies.len()
    }

    /// A copy of body `k`.
    pub fn body(&self, k: usize) -> (r: Body)
        requires
            k < self.bodies@.len(),
        ensures
            r == self.bodies@[k as int],
    {
        self.bodies[k]
    }
}


/// A lone body feels no force: after a tick without walls its acceleration
/// is zero and its velocity is unchanged.
pub proof fn lemma_lone_body(s: Seq<Body>, c: SimConfig)
    requires
        s.len() == 1,
        all_wf(s),
        c.wf(),
    ensures
        tick_spec(s, c, None)[0].acc == (Vec2 { x: 0, y: 0 }),
        tick_spec(s, c, None)[0].vel == s[0].vel,
{
    let z = zero_acc(s);
    let e = c.restitution as int;
    assert(sweep(z, 1, e, 1, 2) == z);
    assert(sweep(z, 1, e, 0, 1) == z);
    assert(s[0].wf());
    let b = z[0];
    assert(b.acc.x == 0 && b.acc.y == 0);
    assert(b.acc.x * c.gravity * c.dt == 0) by (nonlinear_arith)
        requires
            b.acc.x == 0,
    ;
    assert(b.acc.y * c.gravity * c.dt == 0) by (nonlinear_arith)
        requires
            b.acc.y == 0,
    ;
    assert(SCALE * SCALE * c.dt_divisor >= 1) by (nonlinear_arith)
        requires
            c.dt_divisor >= 1,
    ;
}

/// Soft walls: on an axis where the body, integrated without walls, lies
/// beyond its bound, the velocity component is reflected and scaled by 0.9
/// and the position component scaled by 0.99; an axis within its bound keeps
/// exactly what integration without walls gives.
pub proof fn lemma_wall_damping(b: Body, c: SimConfig, right: i64, top: i64)
    requires
        b.wf(),
        c.wf(),
    ensures
        ({
            let free = integrate(b, c, None);
            let walled = integrate(b, c, Some((right, top)));
            &&& abs(free.pos.x as int) > right ==> walled.vel.x == -tdiv(9 * free.vel.x, 10)
                && walled.pos.x == tdiv(99 * free.pos.x, 100)
            &&& abs(free.pos.x as int) <= right ==> walled.vel.x == free.vel.x && walled.pos.x == free.pos.x
            &&& abs(free.pos.y as int) > top ==> walled.vel.y == -tdiv(9 * free.vel.y, 10)
                && walled.pos.y == tdiv(99 * free.pos.y, 100)
            &&& abs(free.pos.y as int) <= top ==> walled.vel.y == free.vel.y && walled.pos.y == free.pos.y
            &&& walled.radius == b.radius && walled.mass == b.mass && walled.acc == b.acc
        }),
{
    let free = integrate(b, c, None);
    let vx = free.vel.x as int;
    let vy = free.vel.y as int;
    lemma_tdiv_scaled(-9 * vx, 10, LIMIT as int);
    lemma_tdiv_scaled(-9 * vy, 10, LIMIT as int);
    lemma_tdiv_scaled(99 * free.pos.x, 100, LIMIT as int);
    lemma_tdiv_scaled(99 * free.pos.y, 100, LIMIT as int);
    assert(tdiv(-9 * vx, 10) == -tdiv(9 * vx, 10));
    assert(tdiv(-9 * vy, 10) == -tdiv(9 * vy, 10));
}

} // verus!
