//! Bodies: point masses with a fixed radius and a mass derived from it.
use vstd::prelude::*;
use crate::fixed::{clamp, LIMIT, SCALE};

verus! {

/// Numerator of the rational approximation of pi used for masses.
pub const PI_NUM: i64 = 31415;

/// Denominator of the rational approximation of pi used for masses.
pub const PI_DEN: i64 = 10000;

/// Largest radius a body may have (one thousand world units).
pub const MAX_RADIUS: i64 = 1_000_000_000;

/// Upper bound on any body's mass.
pub const MAX_MASS: i64 = 4_000_000_000_000;

/// A two-dimensional vector of fixed-point numbers.
#[derive(Clone, Copy, Debug, PartialEq, Eq, Structural)]
pub struct Vec2 {
    pub x: i64,
    pub y: i64,
}

impl Vec2 {
    pub fn new(x: i64, y: i64) -> (r: Vec2)
        ensures
            r == (Vec2 { x, y }),
    {
        Vec2 { x, y }
    }

    pub fn zero() -> (r: Vec2)
        ensures
            r == (Vec2 { x: 0, y: 0 }),
    {
        Vec2 { x: 0, y: 0 }
    }

    /// Both components lie in the stored range.
    pub open spec fn in_range(self) -> bool {
        -LIMIT <= self.x <= LIMIT && -LIMIT <= self.y <= LIMIT
    }
}

/// The vector with both components saturated into the stored range.
pub open spec fn clamp_vec(x: int, y: int) -> Vec2 {
    Vec2 { x: clamp(x) as i64, y: clamp(y) as i64 }
}

/// Mass of a body of the given radius: pi times the radius squared, in
/// fixed point, and never less than one tick.
pub open spec fn mass_of(radius: int) -> int {
    let m = (PI_NUM * radius * radius) / (PI_DEN * SCALE);
    if m < 1 {
        1
    } else {
        m
    }
}

pub proof fn lemma_mass_bounds(radius: int)
    requires
        0 < radius <= MAX_RADIUS,
    ensures
        1 <= mass_of(radius) <= MAX_MASS,
{
    let p = PI_NUM * radius * radius;
    assert(0 <= p <= 31415 * 1_000_000_000_000_000_000) by (nonlinear_arith)
        requires
            p == 31415 * radius * radius,
            0 < radius <= 1_000_000_000,
    ;
    assert(p / 10_000_000_000 <= 4_000_000_000_000) by (nonlinear_arith)
        requires
            0 <= p <= 31415 * 1_000_000_000_000_000_000,
    ;
}

/// A point mass with kinematic state.
#[derive(Clone, Copy, Debug, PartialEq, Eq, Structural)]
pub struct Body {
    pub pos: Vec2,
    pub vel: Vec2,
    /// Working state of the most recent tick.
    pub acc: Vec2,
    pub radius: i64,
    pub mass: i64,
}

impl Body {
    /// A body at rest with respect to acceleration, its mass derived from its radius.
    pub fn new(pos: Vec2, vel: Vec2, radius: i64) -> (r: Body)
        requires
            0 < radius <= MAX_RADIUS,
            pos.in_range(),
            vel.in_range(),
        ensures
            r == (Body { pos, vel, acc: Vec2 { x: 0, y: 0 }, radius, mass: mass_of(radius as int) as i64 }),
            r.wf(),
    {
        proof {
            lemma_mass_bounds(radius as int);
        }
        let r: i128 = radius as i128;
        assert(0 <= PI_NUM * r * r <= 31415 * 1_000_000_000_000_000_000) by (nonlinear_arith)
            requires
                0 < r <= 1_000_000_000,
        ;
        let m: i128 = (PI_NUM as i128 * r * r) / (PI_DEN as i128 * SCALE as i128);
        let mass: i64 = if m < 1 {
            1
        } else {
            m as i64
        };
        Body { pos, vel, acc: Vec2::zero(), radius, mass }
    }

    /// The body's invariant: positive radius, derived mass, stored range.
    pub open spec fn wf(self) -> bool {
        &&& 0 < self.radius <= MAX_RADIUS
        &&& self.mass == mass_of(self.radius as int)
        &&& self.pos.in_range()
        &&& self.vel.in_range()
        &&& self.acc.in_range()
    }
}

/// Every body of the sequence is well formed.
pub open spec fn all_wf(s: Seq<Body>) -> bool {
    forall|k: int| 0 <= k < s.len() ==> #[trigger] s[k].wf()
}

} // verus!
