use vstd::prelude::*;
use crate::fixed::{abs, magnitude};
use crate::particles::{ConfigError, Particle, Vec2};

verus! {

/// Largest magnitude of a wall coordinate.
pub const WALL_LIMIT: i64 = 500_000_000_000;

/// A particle moving left passes the midline wall only at this speed or faster (140 units per second).
pub const GATE_FAST: i64 = 140_000;

/// A particle moving right passes the midline wall only at this speed or slower (10 units per second).
pub const GATE_SLOW: i64 = 10_000;

/// An axis-aligned box with an optional selective wall ("demon gate") on its vertical midline.
#[derive(Clone, Copy, Debug, PartialEq, Eq, Structural)]
pub struct ParticleContainer {
    pub x_min: i64,
    pub y_min: i64,
    pub y_max: i64,
    pub x_max: i64,
    pub demon_looking: bool,
}

/// A disc of radius `r` centred at `coord` reaches the line at `wall`.
pub open spec fn reaches(r: int, wall: int, coord: int) -> bool {
    r >= abs(wall - coord)
}

/// Moves the particle to abscissa `x` and negates its horizontal velocity.
pub open spec fn bounce_x(p: Particle, x: int) -> Particle {
    Particle {
        position: Vec2 { x: x as i64, ..p.position },
        velocity: Vec2 { x: -p.velocity.x as i64, ..p.velocity },
        ..p
    }
}

/// Moves the particle to ordinate `y` and negates its vertical velocity.
pub open spec fn bounce_y(p: Particle, y: int) -> Particle {
    Particle {
        position: Vec2 { y: y as i64, ..p.position },
        velocity: Vec2 { y: -p.velocity.y as i64, ..p.velocity },
        ..p
    }
}

impl ParticleContainer {
    pub open spec fn wf(self) -> bool {
        &&& -WALL_LIMIT <= self.x_min < self.x_max <= WALL_LIMIT
        &&& -WALL_LIMIT <= self.y_min < self.y_max <= WALL_LIMIT
    }

    pub open spec fn midline(self) -> int {
        self.x_min + (self.x_max - self.x_min) / 2
    }

    pub open spec fn hits_left(self, p: Particle) -> bool {
        reaches(p.radius as int, self.x_min as int, p.position.x as int)
    }

    pub open spec fn hits_right(self, p: Particle) -> bool {
        reaches(p.radius as int, self.x_max as int, p.position.x as int)
    }

    pub open spec fn hits_top(self, p: Particle) -> bool {
        reaches(p.radius as int, self.y_min as int, p.position.y as int)
    }

    pub open spec fn hits_bottom(self, p: Particle) -> bool {
        reaches(p.radius as int, self.y_max as int, p.position.y as int)
    }

    pub open spec fn at_gate(self, p: Particle) -> bool {
        reaches(p.radius as int, self.midline(), p.position.x as int)
    }

    pub open spec fn after_left(self, p: Particle) -> Particle {
        if self.hits_left(p) { bounce_x(p, self.x_min + p.radius) } else { p }
    }

    pub open spec fn after_right(self, p: Particle) -> Particle {
        if self.hits_right(p) { bounce_x(p, self.x_max - p.radius) } else { p }
    }

    pub open spec fn after_top(self, p: Particle) -> Particle {
        if self.hits_top(p) { bounce_y(p, self.y_min + p.radius) } else { p }
    }

    pub open spec fn after_bottom(self, p: Particle) -> Particle {
        if self.hits_bottom(p) { bounce_y(p, self.y_max - p.radius) } else { p }
    }

    /// The midline wall, when active, turns back slow particles moving left and fast ones moving right.
    pub open spec fn after_gate(self, p: Particle) -> Particle {
        if self.demon_looking && self.at_gate(p) {
            if p.velocity.x <= 0 && p.speed_sq() < GATE_FAST * GATE_FAST {
                bounce_x(p, p.position.x + p.radius)
            } else if p.velocity.x >= 0 && p.speed_sq() > GATE_SLOW * GATE_SLOW {
                bounce_x(p, p.position.x - p.radius)
            } else {
                p
            }
        } else {
            p
        }
    }

    /// The walls in turn (left, right, top, bottom), then the midline wall.
    pub open spec fn collided(self, p: Particle) -> Particle {
        self.after_gate(self.after_bottom(self.after_top(self.after_right(self.after_left(p)))))
    }

    /// A box with walls `x_min < x_max` and `y_min < y_max`, the midline wall inactive.
    pub fn new(x_min: i64, y_min: i64, y_max: i64, x_max: i64) -> (r: Result<ParticleContainer, ConfigError>)
        ensures
            match r {
                Ok(c) => c.wf() && !c.demon_looking && c.x_min == x_min && c.y_min == y_min
                    && c.y_max == y_max && c.x_max == x_max,
                Err(e) => e == ConfigError::BadWalls,
            },
            r is Ok <==> (-WALL_LIMIT <= x_min < x_max <= WALL_LIMIT && -WALL_LIMIT <= y_min < y_max
                <= WALL_LIMIT),
    {
        if x_min < -WALL_LIMIT || x_min >= x_max || x_max > WALL_LIMIT || y_min < -WALL_LIMIT
            || y_min >= y_max || y_max > WALL_LIMIT {
            return Err(ConfigError::BadWalls);
        }
        Ok(ParticleContainer { x_min, y_min, y_max, x_max, demon_looking: false })
    }

    /// Switches the midline wall on or off.
    pub fn set_gate(&mut self, active: bool)
        ensures
            *final(self) == (ParticleContainer { demon_looking: active, ..*old(self) }),
    {
        self.demon_looking = active;
    }

    /// Pushes a particle that reaches a wall back flush against it, reflecting its velocity,
    /// and applies the midline wall when it is active.
    pub fn collision(&self, particle: &mut Particle)
        requires
            self.wf(),
            old(particle).wf(),
        ensures
            *final(particle) == self.collided(*old(particle)),
            final(particle).wf(),
    {
        let r: i64 = particle.radius;
        let mid: i64 = self.x_min + (self.x_max - self.x_min) / 2;

        if r >= magnitude(self.x_min - particle.position.x) {
            particle.position.x = self.x_min + r;
            particle.velocity.x = -particle.velocity.x;
        }
        if r >= magnitude(self.x_max - particle.position.x) {
            particle.position.x = self.x_max - r;
            particle.velocity.x = -particle.velocity.x;
        }
        if r >= magnitude(self.y_min - particle.position.y) {
            particle.position.y = self.y_min + r;
            particle.velocity.y = -particle.velocity.y;
        }
        if r >= magnitude(self.y_max - particle.position.y) {
            particle.position.y = self.y_max - r;
            particle.velocity.y = -particle.velocity.y;
        }
        if self.demon_looking && r >= magnitude(mid - particle.position.x) {
            let sq: u128 = particle.speed_squared();
            if particle.velocity.x <= 0 && sq < (GATE_FAST as u128) * (GATE_FAST as u128) {
                particle.position.x = particle.position.x + r;
                particle.velocity.x = -particle.velocity.x;
            } else if particle.velocity.x >= 0 && sq > (GATE_SLOW as u128) * (GATE_SLOW as u128) {
                particle.position.x = particle.position.x - r;
                particle.velocity.x = -particle.velocity.x;
            }
        }
    }
}

/// A box wide and tall enough that a particle pushed flush against one wall
/// does not reach the opposite one.
pub open spec fn roomy(c: ParticleContainer, p: Particle) -> bool {
    c.x_max - c.x_min > 2 * p.radius && c.y_max - c.y_min > 2 * p.radius
}

/// Reflection keeps the speed: whatever walls act, the squared speed is unchanged.
pub proof fn lemma_collision_keeps_speed(c: ParticleContainer, p: Particle)
    requires
        c.wf(),
        p.wf(),
    ensures
        c.collided(p).speed_sq() == p.speed_sq(),
{
    assert forall|q: Particle, v: int| q.wf() implies #[trigger] bounce_x(q, v).speed_sq() == q.speed_sq() by {
        let a = q.velocity.x as int;
        assert((-a) * (-a) == a * a) by (nonlinear_arith);
    }
    assert forall|q: Particle, v: int| q.wf() implies #[trigger] bounce_y(q, v).speed_sq() == q.speed_sq() by {
        let a = q.velocity.y as int;
        assert((-a) * (-a) == a * a) by (nonlinear_arith);
    }
    let q_left = c.after_left(p);
    let q_right = c.after_right(q_left);
    let q_top = c.after_top(q_right);
    let q_bottom = c.after_bottom(q_top);
    assert(q_left.wf() && q_left.speed_sq() == p.speed_sq());
    assert(q_right.wf() && q_right.speed_sq() == p.speed_sq());
    assert(q_top.wf() && q_top.speed_sq() == p.speed_sq());
    assert(q_bottom.wf() && q_bottom.speed_sq() == p.speed_sq());
}

/// With the midline wall inactive, reaching a side wall negates exactly the horizontal velocity and
/// reaching the ceiling or the ground negates exactly the vertical one; a component
/// parallel to the walls that were reached is left as it was.
pub proof fn lemma_wall_reflection(c: ParticleContainer, p: Particle)
    requires
        c.wf(),
        p.wf(),
        !c.demon_looking,
        roomy(c, p),
    ensures
        c.hits_left(p) || c.hits_right(p) ==> c.collided(p).velocity.x == -p.velocity.x,
        !(c.hits_left(p) || c.hits_right(p)) ==> c.collided(p).velocity.x == p.velocity.x,
        c.hits_top(p) || c.hits_bottom(p) ==> c.collided(p).velocity.y == -p.velocity.y,
        !(c.hits_top(p) || c.hits_bottom(p)) ==> c.collided(p).velocity.y == p.velocity.y,
{
}

/// With the midline wall inactive, a particle that reached a wall ends at a distance from it
/// equal to its radius.
pub proof fn lemma_flush_against_wall(c: ParticleContainer, p: Particle)
    requires
        c.wf(),
        p.wf(),
        !c.demon_looking,
        roomy(c, p),
    ensures
        c.hits_left(p) ==> c.collided(p).position.x - c.x_min == p.radius,
        c.hits_right(p) ==> c.x_max - c.collided(p).position.x == p.radius,
        c.hits_top(p) ==> c.collided(p).position.y - c.y_min == p.radius,
        c.hits_bottom(p) ==> c.y_max - c.collided(p).position.y == p.radius,
{
}

/// At the active midline wall, clear of the walls: a particle moving left passes unchanged when its
/// speed is at least `GATE_FAST` and is turned back (pushed right by its radius) when slower;
/// a particle moving right passes unchanged when its speed is at most `GATE_SLOW` and is
/// turned back (pushed left by its radius) when faster. Speeds are compared through their
/// squares, which orders them the same way.
pub proof fn lemma_gate_selectivity(c: ParticleContainer, p: Particle)
    requires
        c.wf(),
        p.wf(),
        c.demon_looking,
        c.at_gate(p),
        !c.hits_left(p),
        !c.hits_right(p),
        !c.hits_top(p),
        !c.hits_bottom(p),
    ensures
        p.velocity.x < 0 && p.speed_sq() >= GATE_FAST * GATE_FAST ==> c.collided(p) == p,
        p.velocity.x < 0 && p.speed_sq() < GATE_FAST * GATE_FAST ==> c.collided(p) == bounce_x(
            p,
            p.position.x + p.radius,
        ),
        p.velocity.x > 0 && p.speed_sq() <= GATE_SLOW * GATE_SLOW ==> c.collided(p) == p,
        p.velocity.x > 0 && p.speed_sq() > GATE_SLOW * GATE_SLOW ==> c.collided(p) == bounce_x(
            p,
            p.position.x - p.radius,
        ),
{
}

} // verus!
