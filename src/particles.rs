use vstd::prelude::*;
use rand::rngs::StdRng;
use rand::Rng;
use crate::container::ParticleContainer;
use crate::fixed::{clamp, clamp_wide, div_toward_zero, div_trunc, in_range, LIMIT, TIME_UNIT};

verus! {

/// Largest radius a particle may have.
pub const MAX_RADIUS: i64 = 250_000_000_000;

/// Radius given to every particle placed at random (five units).
pub const PARTICLE_RADIUS: i64 = 5_000;

/// Downward acceleration applied to every particle, in length steps per second squared.
pub const GRAVITY: i64 = 9810;

/// Why a particle, a container or a simulation could not be built.
#[derive(Clone, Copy, Debug, PartialEq, Eq, Structural)]
pub enum ConfigError {
    /// A coordinate or velocity component lies outside `[-LIMIT, LIMIT]`.
    OutOfRange,
    /// The radius is not positive or exceeds `MAX_RADIUS`.
    BadRadius,
    /// The walls do not enclose a non-empty rectangle within range.
    BadWalls,
    /// The container is not wider and taller than a particle's diameter.
    ContainerTooSmall,
    /// The interaction law's parameters lie outside their ranges.
    BadLaw,
}

#[derive(Clone, Copy, Debug, PartialEq, Eq, Structural)]
pub struct Vec2 {
    pub x: i64,
    pub y: i64,
}

impl Vec2 {
    pub open spec fn wf(self) -> bool {
        in_range(self.x as int) && in_range(self.y as int)
    }

    pub open spec fn zero() -> Vec2 {
        Vec2 { x: 0, y: 0 }
    }
}

/// A unit-mass disc: position, velocity, accumulated force and radius,
/// all in fixed-point steps (lengths in `1/UNIT`, times in `1/TIME_UNIT` s).
#[derive(Clone, Copy, Debug, PartialEq, Eq, Structural)]
pub struct Particle {
    pub position: Vec2,
    pub velocity: Vec2,
    pub force: Vec2,
    pub radius: i64,
}

/// Change of a rate `a` over `dt` ticks.
pub open spec fn over(a: int, dt: int) -> int {
    div_trunc(a * dt, TIME_UNIT as int)
}

/// rand's seedable standard generator, owned by the caller and passed in by reference.
#[verifier::external_type_specification]
#[verifier::external_body]
pub struct ExStdRng(rand::rngs::StdRng);

/// Relies on rand's `Rng::gen_range`: a value drawn from the half-open range `[lo, hi)`.
#[verifier::external_body]
fn random_between(rng: &mut StdRng, lo: i64, hi: i64) -> (r: i64)
    requires
        lo < hi,
    ensures
        lo <= r < hi,
{
    rng.gen_range(lo..hi)
}

impl Particle {
    pub open spec fn wf(self) -> bool {
        &&& self.position.wf()
        &&& self.velocity.wf()
        &&& self.force.wf()
        &&& 0 < self.radius <= MAX_RADIUS
    }

    pub open spec fn speed_sq(self) -> int {
        self.velocity.x * self.velocity.x + self.velocity.y * self.velocity.y
    }

    /// Kinetic energy of a unit mass, half the squared speed, rounded down.
    pub open spec fn energy(self) -> int {
        self.speed_sq() / 2
    }

    pub open spec fn with_force(self, f: Vec2) -> Particle {
        Particle { force: f, ..self }
    }

    /// Semi-implicit Euler: the velocity takes gravity and the force first,
    /// then the position moves by the new velocity.
    pub open spec fn integrated(self, dt: int) -> Particle {
        let vx = clamp(self.velocity.x + over(self.force.x as int, dt));
        let vy = clamp(self.velocity.y + over(GRAVITY + self.force.y, dt));
        let x = clamp(self.position.x + over(vx, dt));
        let y = clamp(self.position.y + over(vy, dt));
        Particle {
            position: Vec2 { x: x as i64, y: y as i64 },
            velocity: Vec2 { x: vx as i64, y: vy as i64 },
            ..self
        }
    }

    /// A particle of radius `PARTICLE_RADIUS` with the given velocity, placed at random inside
    /// the container, inset by its radius; the position is drawn from `rng`.
    pub fn new(container: &ParticleContainer, velocity: Vec2, rng: &mut StdRng) -> (r: Result<Particle, ConfigError>)
        requires
            container.wf(),
        ensures
            !Self::fits(*container) ==> r == Err::<Particle, ConfigError>(ConfigError::ContainerTooSmall),
            Self::fits(*container) && !velocity.wf() ==> r == Err::<Particle, ConfigError>(ConfigError::OutOfRange),
            Self::fits(*container) && velocity.wf() ==> (r matches Ok(p) && p.wf() && p.velocity == velocity
                && p.force == Vec2::zero() && p.radius == PARTICLE_RADIUS && Self::placed_in(p, *container)),
    {
        let rad: i64 = PARTICLE_RADIUS;
        if container.x_max - container.x_min <= 2 * rad || container.y_max - container.y_min <= 2 * rad {
            return Err(ConfigError::ContainerTooSmall);
        }
        if velocity.x < -LIMIT || velocity.x > LIMIT || velocity.y < -LIMIT || velocity.y > LIMIT {
            return Err(ConfigError::OutOfRange);
        }
        let x: i64 = random_between(rng, container.x_min + rad, container.x_max - rad);
        let y: i64 = random_between(rng, container.y_min + rad, container.y_max - rad);
        Ok(Particle { position: Vec2 { x, y }, velocity, force: Vec2 { x: 0, y: 0 }, radius: rad })
    }

    /// The container has room for a particle of radius `PARTICLE_RADIUS` strictly inside it.
    pub open spec fn fits(c: ParticleContainer) -> bool {
        c.x_max - c.x_min > 2 * PARTICLE_RADIUS && c.y_max - c.y_min > 2 * PARTICLE_RADIUS
    }

    /// The centre lies in the container inset by the radius (half-open on the far side).
    pub open spec fn placed_in(p: Particle, c: ParticleContainer) -> bool {
        &&& c.x_min + p.radius <= p.position.x < c.x_max - p.radius
        &&& c.y_min + p.radius <= p.position.y < c.y_max - p.radius
    }

    /// A particle at rest force-wise, with the given state; checked against the ranges.
    pub fn with_state(position: Vec2, velocity: Vec2, radius: i64) -> (r: Result<Particle, ConfigError>)
        ensures
            radius <= 0 || radius > MAX_RADIUS ==> r == Err::<Particle, ConfigError>(ConfigError::BadRadius),
            0 < radius <= MAX_RADIUS && !(position.wf() && velocity.wf()) ==> r == Err::<Particle, ConfigError>(ConfigError::OutOfRange),
            0 < radius <= MAX_RADIUS && position.wf() && velocity.wf() ==> r == Ok::<Particle, ConfigError>(
                Particle { position, velocity, force: Vec2 { x: 0, y: 0 }, radius },
            ),
    {
        if radius <= 0 || radius > MAX_RADIUS {
            return Err(ConfigError::BadRadius);
        }
        if position.x < -LIMIT || position.x > LIMIT || position.y < -LIMIT || position.y > LIMIT
            || velocity.x < -LIMIT || velocity.x > LIMIT || velocity.y < -LIMIT
            || velocity.y > LIMIT {
            return Err(ConfigError::OutOfRange);
        }
        Ok(Particle { position, velocity, force: Vec2 { x: 0, y: 0 }, radius })
    }

    pub fn reset_force(&mut self)
        ensures
            *final(self) == old(self).with_force(Vec2::zero()),
    {
        self.force = Vec2 { x: 0, y: 0 };
    }

    fn update_velocity(&mut self, dt: i64)
        requires
            old(self).wf(),
            0 <= dt,
        ensures
            final(self).velocity.x == clamp(old(self).velocity.x + over(old(self).force.x as int, dt as int)),
            final(self).velocity.y == clamp(old(self).velocity.y + over(GRAVITY + old(self).force.y, dt as int)),
            final(self).position == old(self).position,
            final(self).force == old(self).force,
            final(self).radius == old(self).radius,
    {
        assert(0 <= (GRAVITY + self.force.y) * dt <= 2 * LIMIT * i64::MAX || 0 >= (GRAVITY + self.force.y) * dt >= -2 * LIMIT * i64::MAX) by (nonlinear_arith)
            requires
                -LIMIT <= self.force.y <= LIMIT,
                0 <= dt <= i64::MAX,
        ;
        assert(0 <= self.force.x * dt <= LIMIT * i64::MAX || 0 >= self.force.x * dt >= -LIMIT * i64::MAX) by (nonlinear_arith)
            requires
                -LIMIT <= self.force.x <= LIMIT,
                0 <= dt <= i64::MAX,
        ;
        let ay: i128 = (GRAVITY as i128 + self.force.y as i128) * dt as i128;
        let ax: i128 = self.force.x as i128 * dt as i128;
        let dvy: i128 = div_toward_zero(ay, TIME_UNIT as i128);
        let dvx: i128 = div_toward_zero(ax, TIME_UNIT as i128);
        self.velocity.y = clamp_wide(self.velocity.y as i128 + dvy);
        self.velocity.x = clamp_wide(self.velocity.x as i128 + dvx);
    }

    fn update_position(&mut self, dt: i64)
        requires
            old(self).wf(),
            0 <= dt,
        ensures
            final(self).position.x == clamp(old(self).position.x + over(old(self).velocity.x as int, dt as int)),
            final(self).position.y == clamp(old(self).position.y + over(old(self).velocity.y as int, dt as int)),
            final(self).velocity == old(self).velocity,
            final(self).force == old(self).force,
            final(self).radius == old(self).radius,
    {
        assert(0 <= self.velocity.x * dt <= LIMIT * i64::MAX || 0 >= self.velocity.x * dt >= -LIMIT * i64::MAX) by (nonlinear_arith)
            requires
                -LIMIT <= self.velocity.x <= LIMIT,
                0 <= dt <= i64::MAX,
        ;
        assert(0 <= self.velocity.y * dt <= LIMIT * i64::MAX || 0 >= self.velocity.y * dt >= -LIMIT * i64::MAX) by (nonlinear_arith)
            requires
                -LIMIT <= self.velocity.y <= LIMIT,
                0 <= dt <= i64::MAX,
        ;
        let sx: i128 = self.velocity.x as i128 * dt as i128;
        let sy: i128 = self.velocity.y as i128 * dt as i128;
        let dx: i128 = div_toward_zero(sx, TIME_UNIT as i128);
        let dy: i128 = div_toward_zero(sy, TIME_UNIT as i128);
        self.position.x = clamp_wide(self.position.x as i128 + dx);
        self.position.y = clamp_wide(self.position.y as i128 + dy);
    }

    /// Advances the particle by `dt` ticks.
    pub fn update(&mut self, dt: i64)
        requires
            old(self).wf(),
            0 <= dt,
        ensures
            *final(self) == old(self).integrated(dt as int),
            final(self).wf(),
    {
        self.update_velocity(dt);
        self.update_position(dt);
    }

    pub(crate) fn speed_squared(&self) -> (r: u128)
        requires
            self.wf(),
        ensures
            r as int == self.speed_sq(),
            r <= 2 * LIMIT * LIMIT,
    {
        let vx: i128 = self.velocity.x as i128;
        let vy: i128 = self.velocity.y as i128;
        assert(0 <= vx * vx <= LIMIT * LIMIT) by (nonlinear_arith)
            requires
                -LIMIT <= vx <= LIMIT,
        ;
        assert(0 <= vy * vy <= LIMIT * LIMIT) by (nonlinear_arith)
            requires
                -LIMIT <= vy <= LIMIT,
        ;
        (vx * vx + vy * vy) as u128
    }

    /// Kinetic energy of the unit mass, `speed² / 2` rounded down, in steps squared per second squared.
    pub fn kinetic_energy(&self) -> (r: u128)
        requires
            self.wf(),
        ensures
            r as int == self.energy(),
            r <= LIMIT * LIMIT,
    {
        self.speed_squared() / 2
    }
}

} // verus!
