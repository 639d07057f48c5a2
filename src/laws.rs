use vstd::prelude::*;
use crate::fixed::{
    abs, clamp, clamp_wide, div_toward_zero, div_trunc, in_range, is_isqrt, isqrt, isqrt_ceil,
    lemma_below_root, lemma_mul_bound, lemma_square_monotone, lemma_trunc_bound,
    lemma_trunc_monotone, lemma_trunc_remainder, sqrt_ceil, sqrt_floor, LIMIT, ROOT_SCALE,
};
use crate::particles::{Particle, Vec2, MAX_RADIUS};

verus! {

/// Largest magnitude of the Coulomb constant.
pub const K_LIMIT: i64 = 1_000_000_000_000_000_000;

/// Largest cutoff distance.
pub const CUTOFF_LIMIT: i64 = 4_000_000_000_000;

/// Charge carried by every particle.
pub const CHARGE: i64 = 1;

/// An inverse-square force between every pair closer than `cutoff`, accumulated into
/// the particles' force buffers.
#[derive(Clone, Copy, Debug, PartialEq, Eq, Structural)]
pub struct CoulombLaw {
    /// The constant `k` times the product of the two charges (`CHARGE` each, so 1), in
    /// fixed-point units: a pair `d` steps apart feels `k / d²` steps per second squared.
    pub k: i64,
    pub softening: i64,
    pub cutoff: i64,
}

/// An instantaneous elastic collision between overlapping discs. The three parameters,
/// fractions in thousandths (restitution, correction factor) and a length (slop), are
/// carried but do not take part: the overlap is always corrected in full.
#[derive(Clone, Copy, Debug, PartialEq, Eq, Structural)]
pub struct ImpulseCollision {
    pub restitution: i64,
    pub correction_factor: i64,
    pub penetration_slop: i64,
}

#[derive(Clone, Copy, Debug, PartialEq, Eq, Structural)]
pub enum InteractionLawType {
    CoulombLaw,
    ImpulseCollision,
}

/// The pairwise law in force for a whole run.
#[derive(Clone, Copy, Debug, PartialEq, Eq, Structural)]
pub enum InteractionLaw {
    Coulomb(CoulombLaw),
    Impulse(ImpulseCollision),
}

pub open spec fn dx(a: Particle, b: Particle) -> int {
    b.position.x - a.position.x
}

pub open spec fn dy(a: Particle, b: Particle) -> int {
    b.position.y - a.position.y
}

/// Adds `(fx, fy)` to the force buffer, saturating.
pub open spec fn pushed(p: Particle, fx: int, fy: int) -> Particle {
    p.with_force(Vec2 { x: clamp(p.force.x + fx) as i64, y: clamp(p.force.y + fy) as i64 })
}

/// Adds `(vx, vy)` to the velocity and `(sx, sy)` to the position, saturating.
pub open spec fn kicked(p: Particle, vx: int, vy: int, sx: int, sy: int) -> Particle {
    Particle {
        position: Vec2 { x: clamp(p.position.x + sx) as i64, y: clamp(p.position.y + sy) as i64 },
        velocity: Vec2 { x: clamp(p.velocity.x + vx) as i64, y: clamp(p.velocity.y + vy) as i64 },
        ..p
    }
}

impl CoulombLaw {
    pub open spec fn wf(self) -> bool {
        &&& -K_LIMIT <= self.k <= K_LIMIT
        &&& 0 <= self.softening <= LIMIT
        &&& 0 <= self.cutoff <= CUTOFF_LIMIT
    }

    /// Squared distance, softened.
    pub open spec fn dist_sq(self, a: Particle, b: Particle) -> int {
        dx(a, b) * dx(a, b) + dy(a, b) * dy(a, b) + self.softening * self.softening
    }

    /// Farther apart than the cutoff (compared through squares, exactly).
    pub open spec fn beyond_cutoff(self, a: Particle, b: Particle) -> bool {
        self.dist_sq(a, b) > self.cutoff * self.cutoff
    }

    /// The squared distance, floored at a tenth of `a`'s radius taken in units
    /// (`radius * UNIT / 10` steps squared), which bounds the force at close range.
    pub open spec fn floored_sq(self, a: Particle, b: Particle) -> int {
        let f = a.radius * 100;
        if self.dist_sq(a, b) < f { f } else { self.dist_sq(a, b) }
    }

    /// The softened distance times `ROOT_SCALE`, rounded up, so that it is never less
    /// than any component of the displacement times `ROOT_SCALE`.
    pub open spec fn scaled_dist(self, a: Particle, b: Particle) -> int {
        sqrt_ceil(self.dist_sq(a, b) * ROOT_SCALE * ROOT_SCALE)
    }

    /// One component of the force on `b`: `k q² / r²` along the normal
    /// `d * ROOT_SCALE / scaled_dist`, whose components never exceed 1 in magnitude.
    pub open spec fn force_along(self, a: Particle, b: Particle, d: int) -> int {
        div_trunc(
            div_trunc(self.k * CHARGE * CHARGE * (d * ROOT_SCALE), self.scaled_dist(a, b)),
            self.floored_sq(a, b),
        )
    }

    /// A force is added: within the cutoff, and not at distance zero.
    pub open spec fn acts(self, a: Particle, b: Particle) -> bool {
        !self.beyond_cutoff(a, b) && self.dist_sq(a, b) > 0
    }

    /// The pair after the law: `b` receives the force, `a` its opposite.
    pub open spec fn outcome(self, a: Particle, b: Particle) -> (bool, Particle, Particle) {
        if self.acts(a, b) {
            let fx = self.force_along(a, b, dx(a, b));
            let fy = self.force_along(a, b, dy(a, b));
            (true, pushed(a, -fx, -fy), pushed(b, fx, fy))
        } else {
            (true, a, b)
        }
    }

    pub fn new(k: i64, softening: i64, cutoff: i64) -> (r: CoulombLaw)
        ensures
            r == (CoulombLaw { k, softening, cutoff }),
    {
        CoulombLaw { k, softening, cutoff }
    }

    /// Accumulates the force between `a` and `b` into both; always returns `true`.
    pub fn resolve(&self, a: &mut Particle, b: &mut Particle) -> (r: bool)
        requires
            self.wf(),
            old(a).wf(),
            old(b).wf(),
        ensures
            (r, *final(a), *final(b)) == self.outcome(*old(a), *old(b)),
            final(a).wf(),
            final(b).wf(),
            self.acts(*old(a), *old(b)) ==> abs(self.force_along(*old(a), *old(b), dx(*old(a), *old(b))))
                <= abs(self.k as int) / self.floored_sq(*old(a), *old(b)),
            self.acts(*old(a), *old(b)) ==> abs(self.force_along(*old(a), *old(b), dy(*old(a), *old(b))))
                <= abs(self.k as int) / self.floored_sq(*old(a), *old(b)),
            self.floored_sq(*old(a), *old(b)) >= 100 * old(a).radius,
    {
        let dx: i128 = b.position.x as i128 - a.position.x as i128;
        let dy: i128 = b.position.y as i128 - a.position.y as i128;
        let s: i128 = self.softening as i128;
        let c: i128 = self.cutoff as i128;
        proof {
            lemma_mul_bound(dx as int, dx as int, 2 * LIMIT, 2 * LIMIT);
            lemma_mul_bound(dy as int, dy as int, 2 * LIMIT, 2 * LIMIT);
            lemma_mul_bound(s as int, s as int, LIMIT as int, LIMIT as int);
            lemma_mul_bound(c as int, c as int, CUTOFF_LIMIT as int, CUTOFF_LIMIT as int);
            assert(0 <= dx * dx && 0 <= dy * dy && 0 <= s * s) by (nonlinear_arith);
        }
        let dsq: i128 = dx * dx + dy * dy + s * s;
        if dsq > c * c {
            return true;
        }
        if dsq == 0 {
            return true;
        }
        let scale: i128 = ROOT_SCALE as i128;
        proof {
            let lim: int = CUTOFF_LIMIT as int * CUTOFF_LIMIT as int;
            lemma_square_monotone(c as int, CUTOFF_LIMIT as int);
            assert(dsq * scale * scale <= lim * scale * scale) by (nonlinear_arith)
                requires
                    0 <= dsq <= lim,
                    scale > 0,
            ;
            assert(0 <= dsq * scale * scale) by (nonlinear_arith)
                requires
                    0 <= dsq,
            ;
        }
        let sc: i128 = isqrt_ceil((dsq * scale * scale) as u128) as i128;
        let fl: i128 = a.radius as i128 * 100;
        let d2: i128 = if dsq < fl { fl } else { dsq };
        let kq: i128 = self.k as i128 * CHARGE as i128 * CHARGE as i128;
        proof {
            let ax: int = abs(dx as int);
            let ay: int = abs(dy as int);
            assert(ax * ax == dx * dx && ay * ay == dy * dy) by (nonlinear_arith)
                requires
                    ax == abs(dx as int),
                    ay == abs(dy as int),
            ;
            assert((ax * scale) * (ax * scale) <= dsq * scale * scale) by (nonlinear_arith)
                requires
                    ax * ax <= dsq,
                    ax >= 0,
                    scale > 0,
            ;
            assert((ay * scale) * (ay * scale) <= dsq * scale * scale) by (nonlinear_arith)
                requires
                    ay * ay <= dsq,
                    ay >= 0,
                    scale > 0,
            ;
            lemma_below_root(ax * scale, dsq * scale * scale, sc as int);
            lemma_below_root(ay * scale, dsq * scale * scale, sc as int);
            lemma_mul_bound(kq as int, (dx * scale) as int, abs(self.k as int), sc as int);
            lemma_mul_bound(kq as int, (dy * scale) as int, abs(self.k as int), sc as int);
            assert(abs(self.k as int) * sc <= K_LIMIT * 0x8000_0000_0000_0000) by (nonlinear_arith)
                requires
                    0 <= abs(self.k as int) <= K_LIMIT,
                    0 <= sc <= 0x8000_0000_0000_0000,
            ;
            lemma_trunc_bound(kq * (dx * scale), sc as int, abs(self.k as int));
            lemma_trunc_bound(kq * (dy * scale), sc as int, abs(self.k as int));
        }
        let tx: i128 = div_toward_zero(kq * (dx * scale), sc);
        let ty: i128 = div_toward_zero(kq * (dy * scale), sc);
        let fx: i128 = div_toward_zero(tx, d2);
        let fy: i128 = div_toward_zero(ty, d2);
        proof {
            lemma_trunc_monotone(tx as int, d2 as int, abs(self.k as int));
            lemma_trunc_monotone(ty as int, d2 as int, abs(self.k as int));
        }
        a.force = Vec2 {
            x: clamp_wide(a.force.x as i128 - fx),
            y: clamp_wide(a.force.y as i128 - fy),
        };
        b.force = Vec2 {
            x: clamp_wide(b.force.x as i128 + fx),
            y: clamp_wide(b.force.y as i128 + fy),
        };
        true
    }
}

impl ImpulseCollision {
    pub open spec fn dist_sq(a: Particle, b: Particle) -> int {
        dx(a, b) * dx(a, b) + dy(a, b) * dy(a, b)
    }

    pub open spec fn radius_sum(a: Particle, b: Particle) -> int {
        a.radius + b.radius
    }

    pub open spec fn overlapping(a: Particle, b: Particle) -> bool {
        Self::dist_sq(a, b) < Self::radius_sum(a, b) * Self::radius_sum(a, b)
    }

    /// Relative velocity `a - b` projected on the displacement from `a` to `b`
    /// (times the distance): positive when the discs approach each other.
    pub open spec fn approach(a: Particle, b: Particle) -> int {
        (a.velocity.x - b.velocity.x) * dx(a, b) + (a.velocity.y - b.velocity.y) * dy(a, b)
    }

    /// One component of the impulse given to `b`: the relative velocity's normal part.
    pub open spec fn impulse_along(a: Particle, b: Particle, d: int) -> int {
        div_trunc(Self::approach(a, b) * d, Self::dist_sq(a, b))
    }

    /// The distance times `ROOT_SCALE`, rounded down.
    pub open spec fn scaled_dist(a: Particle, b: Particle) -> int {
        sqrt_floor(Self::dist_sq(a, b) * ROOT_SCALE * ROOT_SCALE)
    }

    /// One component of the shift of `b`: half the overlap along the normal, with the
    /// distance taken at scale `ROOT_SCALE`.
    pub open spec fn shift_along(a: Particle, b: Particle, d: int) -> int {
        let r = Self::scaled_dist(a, b);
        div_trunc((Self::radius_sum(a, b) * ROOT_SCALE - r) * d, 2 * r)
    }

    /// The shifts of both discs stay within range.
    pub open spec fn shift_unsaturated(a: Particle, b: Particle) -> bool {
        let sx = Self::shift_along(a, b, dx(a, b));
        let sy = Self::shift_along(a, b, dy(a, b));
        &&& in_range(a.position.x - sx)
        &&& in_range(a.position.y - sy)
        &&& in_range(b.position.x + sx)
        &&& in_range(b.position.y + sy)
    }

    /// The pair `(a1, b1)` touches as `(a0, b0)` should after correction: its separation
    /// is `radius_sum` along the old normal to within two steps per axis. The normal is
    /// `d * ROOT_SCALE / r`, where `r` is the root of `|d|² * ROOT_SCALE²` rounded down.
    pub open spec fn touching_after(a0: Particle, b0: Particle, a1: Particle, b1: Particle) -> bool {
        let r = Self::scaled_dist(a0, b0);
        let s = Self::radius_sum(a0, b0) * ROOT_SCALE;
        &&& abs(r * dx(a1, b1) - s * dx(a0, b0)) < 2 * r
        &&& abs(r * dy(a1, b1) - s * dy(a0, b0)) < 2 * r
    }

    /// The impulse is exchanged: the discs overlap, are apart, and do not separate.
    pub open spec fn acts(a: Particle, b: Particle) -> bool {
        Self::overlapping(a, b) && Self::dist_sq(a, b) > 0 && Self::approach(a, b) >= 0
    }

    pub open spec fn outcome(self, a: Particle, b: Particle) -> (bool, Particle, Particle) {
        if Self::acts(a, b) {
            let jx = Self::impulse_along(a, b, dx(a, b));
            let jy = Self::impulse_along(a, b, dy(a, b));
            let sx = Self::shift_along(a, b, dx(a, b));
            let sy = Self::shift_along(a, b, dy(a, b));
            (true, kicked(a, -jx, -jy, -sx, -sy), kicked(b, jx, jy, sx, sy))
        } else {
            (Self::overlapping(a, b), a, b)
        }
    }

    pub fn new(restitution: i64, correction_factor: i64, penetration_slop: i64) -> (r: ImpulseCollision)
        ensures
            r == (ImpulseCollision { restitution, correction_factor, penetration_slop }),
    {
        ImpulseCollision { restitution, correction_factor, penetration_slop }
    }

    /// Resolves an overlap: returns `false` when the discs do not overlap, `true` otherwise.
    pub fn resolve(&self, a: &mut Particle, b: &mut Particle) -> (r: bool)
        requires
            old(a).wf(),
            old(b).wf(),
        ensures
            (r, *final(a), *final(b)) == self.outcome(*old(a), *old(b)),
            final(a).wf(),
            final(b).wf(),
            Self::acts(*old(a), *old(b)) ==> is_isqrt(
                Self::dist_sq(*old(a), *old(b)) * ROOT_SCALE * ROOT_SCALE,
                Self::scaled_dist(*old(a), *old(b)),
            ) && Self::scaled_dist(*old(a), *old(b)) >= ROOT_SCALE,
            Self::acts(*old(a), *old(b)) && Self::shift_unsaturated(*old(a), *old(b)) ==> Self::touching_after(
                *old(a),
                *old(b),
                *final(a),
                *final(b),
            ),
    {
        let ghost a0 = *a;
        let ghost b0 = *b;
        let dx: i128 = b.position.x as i128 - a.position.x as i128;
        let dy: i128 = b.position.y as i128 - a.position.y as i128;
        proof {
            lemma_mul_bound(dx as int, dx as int, 2 * LIMIT, 2 * LIMIT);
            lemma_mul_bound(dy as int, dy as int, 2 * LIMIT, 2 * LIMIT);
            assert(0 <= dx * dx && 0 <= dy * dy) by (nonlinear_arith);
        }
        let dsq: i128 = dx * dx + dy * dy;
        let rsum: i128 = a.radius as i128 + b.radius as i128;
        proof {
            lemma_mul_bound(rsum as int, rsum as int, 2 * MAX_RADIUS, 2 * MAX_RADIUS);
        }
        if dsq >= rsum * rsum {
            return false;
        }
        if dsq == 0 {
            return true;
        }
        let rvx: i128 = a.velocity.x as i128 - b.velocity.x as i128;
        let rvy: i128 = a.velocity.y as i128 - b.velocity.y as i128;
        proof {
            lemma_mul_bound(rvx as int, dx as int, 2 * LIMIT, 2 * LIMIT);
            lemma_mul_bound(rvy as int, dy as int, 2 * LIMIT, 2 * LIMIT);
        }
        let approach: i128 = rvx * dx + rvy * dy;
        if approach < 0 {
            return true;
        }
        let scale: i128 = ROOT_SCALE as i128;
        let ghost n: int = dsq * scale * scale;
        let ghost top: int = rsum * scale;
        proof {
            assert(0 < n < top * top) by (nonlinear_arith)
                requires
                    n == dsq * scale * scale,
                    top == rsum * scale,
                    1 <= dsq < rsum * rsum,
                    scale > 0,
            ;
            lemma_square_monotone(top, 2 * MAX_RADIUS * ROOT_SCALE);
        }
        let rs: i128 = isqrt((dsq * scale * scale) as u128) as i128;
        proof {
            if rs >= top {
                lemma_square_monotone(top, rs as int);
            }
            if rs < scale {
                lemma_square_monotone(rs + 1, scale as int);
                assert(scale * scale <= n) by (nonlinear_arith)
                    requires
                        n == dsq * scale * scale,
                        dsq >= 1,
                        scale > 0,
                ;
            }
            let ax: int = abs(dx as int);
            let ay: int = abs(dy as int);
            assert(ax * ax <= dsq && ay * ay <= dsq) by (nonlinear_arith)
                requires
                    ax == abs(dx as int),
                    ay == abs(dy as int),
                    dsq == dx * dx + dy * dy,
            ;
            lemma_below_root(ax, dsq as int, rsum as int);
            lemma_below_root(ay, dsq as int, rsum as int);
            lemma_mul_bound(approach as int, dx as int, 8 * LIMIT * LIMIT, 2 * LIMIT);
            lemma_mul_bound(approach as int, dy as int, 8 * LIMIT * LIMIT, 2 * LIMIT);
            lemma_mul_bound((top - rs) as int, dx as int, 2 * MAX_RADIUS * ROOT_SCALE, 2 * MAX_RADIUS);
            lemma_mul_bound((top - rs) as int, dy as int, 2 * MAX_RADIUS * ROOT_SCALE, 2 * MAX_RADIUS);
        }
        let jx: i128 = div_toward_zero(approach * dx, dsq);
        let jy: i128 = div_toward_zero(approach * dy, dsq);
        let overlap: i128 = rsum * scale - rs;
        let sx: i128 = div_toward_zero(overlap * dx, 2 * rs);
        let sy: i128 = div_toward_zero(overlap * dy, 2 * rs);
        proof {
            lemma_trunc_remainder(overlap * dx, 2 * rs);
            lemma_trunc_remainder(overlap * dy, 2 * rs);
            assert(rs * (dx + 2 * sx) - top * dx == sx * (2 * rs) - overlap * dx) by (nonlinear_arith)
                requires
                    overlap == top - rs,
            ;
            assert(rs * (dy + 2 * sy) - top * dy == sy * (2 * rs) - overlap * dy) by (nonlinear_arith)
                requires
                    overlap == top - rs,
            ;
        }
        a.velocity = Vec2 {
            x: clamp_wide(a.velocity.x as i128 - jx),
            y: clamp_wide(a.velocity.y as i128 - jy),
        };
        b.velocity = Vec2 {
            x: clamp_wide(b.velocity.x as i128 + jx),
            y: clamp_wide(b.velocity.y as i128 + jy),
        };
        a.position = Vec2 {
            x: clamp_wide(a.position.x as i128 - sx),
            y: clamp_wide(a.position.y as i128 - sy),
        };
        b.position = Vec2 {
            x: clamp_wide(b.position.x as i128 + sx),
            y: clamp_wide(b.position.y as i128 + sy),
        };
        true
    }
}

impl InteractionLaw {
    pub open spec fn wf(self) -> bool {
        match self {
            InteractionLaw::Coulomb(c) => c.wf(),
            InteractionLaw::Impulse(_) => true,
        }
    }

    pub open spec fn outcome(self, a: Particle, b: Particle) -> (bool, Particle, Particle) {
        match self {
            InteractionLaw::Coulomb(c) => c.outcome(a, b),
            InteractionLaw::Impulse(i) => i.outcome(a, b),
        }
    }

    /// Whether the parameters lie within their ranges.
    pub fn is_valid(&self) -> (r: bool)
        ensures
            r == self.wf(),
    {
        match self {
            InteractionLaw::Coulomb(c) => -K_LIMIT <= c.k && c.k <= K_LIMIT && 0 <= c.softening
                && c.softening <= LIMIT && 0 <= c.cutoff && c.cutoff <= CUTOFF_LIMIT,
            InteractionLaw::Impulse(_) => true,
        }
    }

    /// Applies the law to the pair `(a, b)`, equal and opposite on both.
    pub fn resolve(&self, a: &mut Particle, b: &mut Particle) -> (r: bool)
        requires
            self.wf(),
            old(a).wf(),
            old(b).wf(),
        ensures
            (r, *final(a), *final(b)) == self.outcome(*old(a), *old(b)),
            final(a).wf(),
            final(b).wf(),
    {
        match self {
            InteractionLaw::Coulomb(c) => c.resolve(a, b),
            InteractionLaw::Impulse(i) => i.resolve(a, b),
        }
    }
}

/// The law of the given type, with its default parameters: for Coulomb, `k q²` of
/// 13686 units cubed per second squared, a softening of a thousandth of a unit and
/// a cutoff of 2000 units; for the impulse law, restitution 1, correction 0.8 and
/// slop 0.01 units.
pub open spec fn default_law(law_type: InteractionLawType) -> InteractionLaw {
    match law_type {
        InteractionLawType::CoulombLaw => InteractionLaw::Coulomb(
            CoulombLaw { k: 13_686_000_000_000, softening: 1, cutoff: 2_000_000 },
        ),
        InteractionLawType::ImpulseCollision => InteractionLaw::Impulse(
            ImpulseCollision { restitution: 1000, correction_factor: 800, penetration_slop: 10 },
        ),
    }
}

pub fn build_interaction_law(law_type: InteractionLawType) -> (r: InteractionLaw)
    ensures
        r == default_law(law_type),
        r.wf(),
{
    match law_type {
        InteractionLawType::CoulombLaw => InteractionLaw::Coulomb(
            CoulombLaw::new(13_686_000_000_000, 1, 2_000_000),
        ),
        InteractionLawType::ImpulseCollision => InteractionLaw::Impulse(
            ImpulseCollision::new(1000, 800, 10),
        ),
    }
}

/// No velocity component saturates when the impulse law exchanges its impulse.
pub open spec fn impulse_unsaturated(a: Particle, b: Particle) -> bool {
    let jx = ImpulseCollision::impulse_along(a, b, dx(a, b));
    let jy = ImpulseCollision::impulse_along(a, b, dy(a, b));
    &&& in_range(a.velocity.x - jx)
    &&& in_range(a.velocity.y - jy)
    &&& in_range(b.velocity.x + jx)
    &&& in_range(b.velocity.y + jy)
}

/// No force component saturates when the Coulomb law adds its force.
pub open spec fn coulomb_unsaturated(law: CoulombLaw, a: Particle, b: Particle) -> bool {
    let fx = law.force_along(a, b, dx(a, b));
    let fy = law.force_along(a, b, dy(a, b));
    &&& in_range(a.force.x - fx)
    &&& in_range(a.force.y - fy)
    &&& in_range(b.force.x + fx)
    &&& in_range(b.force.y + fy)
}

/// The impulse law conserves momentum: for unit masses, the sum of the two velocities
/// after a resolution equals the sum before, unless a component saturates.
pub proof fn lemma_impulse_conserves_momentum(law: ImpulseCollision, a: Particle, b: Particle)
    requires
        a.wf(),
        b.wf(),
        impulse_unsaturated(a, b),
    ensures
        law.outcome(a, b).1.velocity.x + law.outcome(a, b).2.velocity.x == a.velocity.x
            + b.velocity.x,
        law.outcome(a, b).1.velocity.y + law.outcome(a, b).2.velocity.y == a.velocity.y
            + b.velocity.y,
{
}

/// The Coulomb law adds equal and opposite forces: the sum of the two force buffers is
/// unchanged, unless a component saturates.
pub proof fn lemma_coulomb_equal_and_opposite(law: CoulombLaw, a: Particle, b: Particle)
    requires
        law.wf(),
        a.wf(),
        b.wf(),
        coulomb_unsaturated(law, a, b),
    ensures
        law.outcome(a, b).1.force.x + law.outcome(a, b).2.force.x == a.force.x + b.force.x,
        law.outcome(a, b).1.force.y + law.outcome(a, b).2.force.y == a.force.y + b.force.y,
{
}

/// Beyond the cutoff the Coulomb law returns `true` and changes neither particle.
pub proof fn lemma_coulomb_cutoff(law: CoulombLaw, a: Particle, b: Particle)
    requires
        law.wf(),
        a.wf(),
        b.wf(),
        law.beyond_cutoff(a, b),
    ensures
        law.outcome(a, b) == (true, a, b),
{
}

} // verus!
