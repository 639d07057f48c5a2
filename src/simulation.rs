use vstd::prelude::*;
use crate::container::ParticleContainer;
use crate::laws::{coulomb_unsaturated, CoulombLaw, InteractionLaw};
use rand::rngs::StdRng;
use crate::particles::{ConfigError, Particle, Vec2};
use crate::fixed::LIMIT;

verus! {

/// The pairs `(i, j)` with `i < j < n`, in increasing `j`.
pub open spec fn row(n: int, i: int) -> Seq<(int, int)> {
    if i + 1 >= n {
        Seq::empty()
    } else {
        Seq::new((n - i - 1) as nat, |k: int| (i, i + 1 + k))
    }
}

/// The rows of the first `m` indices, one after another.
pub open spec fn rows(n: int, m: int) -> Seq<(int, int)>
    decreases m,
{
    if m <= 0 {
        Seq::empty()
    } else {
        rows(n, m - 1) + row(n, m - 1)
    }
}

/// The order in which one interaction pass visits the pairs of `n` particles.
pub open spec fn pair_order(n: int) -> Seq<(int, int)> {
    rows(n, n)
}

pub open spec fn lex_lt(p: (int, int), q: (int, int)) -> bool {
    p.0 < q.0 || (p.0 == q.0 && p.1 < q.1)
}

/// The particles after the law has acted on the pair `p`.
pub open spec fn apply_pair(law: InteractionLaw, ps: Seq<Particle>, p: (int, int)) -> Seq<Particle> {
    let out = law.outcome(ps[p.0], ps[p.1]);
    ps.update(p.0, out.1).update(p.1, out.2)
}

/// The particles after the law has acted on each pair in turn.
pub open spec fn apply_pairs(law: InteractionLaw, ps: Seq<Particle>, pairs: Seq<(int, int)>) -> Seq<Particle>
    decreases pairs.len(),
{
    if pairs.len() == 0 {
        ps
    } else {
        apply_pair(law, apply_pairs(law, ps, pairs.drop_last()), pairs.last())
    }
}

pub open spec fn all_wf(ps: Seq<Particle>) -> bool {
    forall|k: int| 0 <= k < ps.len() ==> (#[trigger] ps[k]).wf()
}

proof fn lemma_rows(n: int, m: int)
    requires
        0 <= m <= n,
    ensures
        forall|k: int|
            0 <= k < rows(n, m).len() ==> 0 <= (#[trigger] rows(n, m)[k]).0 < m && rows(n, m)[k].0
                < rows(n, m)[k].1 < n,
        forall|k1: int, k2: int|
            0 <= k1 < k2 < rows(n, m).len() ==> lex_lt(
                #[trigger] rows(n, m)[k1],
                #[trigger] rows(n, m)[k2],
            ),
        forall|a: int, b: int| 0 <= a < m && a < b < n ==> #[trigger] rows(n, m).contains((a, b)),
    decreases m,
{
    if m > 0 {
        lemma_rows(n, m - 1);
        let prev = rows(n, m - 1);
        let r = row(n, m - 1);
        let all = rows(n, m);
        assert(all == prev + r);
        assert forall|k: int| 0 <= k < all.len() implies 0 <= (#[trigger] all[k]).0 < m && all[k].0
            < all[k].1 < n by {
            if k >= prev.len() {
                assert(all[k] == r[k - prev.len()]);
            }
        }
        assert forall|k1: int, k2: int| 0 <= k1 < k2 < all.len() implies lex_lt(
            #[trigger] all[k1],
            #[trigger] all[k2],
        ) by {
            if k2 < prev.len() {
                assert(all[k1] == prev[k1] && all[k2] == prev[k2]);
            } else if k1 < prev.len() {
                assert(all[k1] == prev[k1]);
                assert(all[k2] == r[k2 - prev.len()]);
            } else {
                assert(all[k1] == r[k1 - prev.len()]);
                assert(all[k2] == r[k2 - prev.len()]);
            }
        }
        assert forall|a: int, b: int| 0 <= a < m && a < b < n implies #[trigger] all.contains((a, b)) by {
            if a < m - 1 {
                assert(prev.contains((a, b)));
                let k = choose|k: int| 0 <= k < prev.len() && #[trigger] prev[k] == (a, b);
                assert(all[k] == (a, b));
            } else {
                let k = prev.len() + (b - a - 1);
                assert(all[k] == r[b - a - 1]);
            }
        }
    }
}

/// One interaction pass resolves every unordered pair of distinct particles exactly once,
/// in lexicographic order: each pair `i < j < n` occurs in the visiting order, the order
/// holds nothing else, it is strictly increasing, and so no pair occurs twice.
pub proof fn lemma_pair_order_unique(n: int)
    requires
        0 <= n,
    ensures
        forall|k: int|
            0 <= k < pair_order(n).len() ==> 0 <= (#[trigger] pair_order(n)[k]).0 < pair_order(n)[k].1
                < n,
        forall|i: int, j: int| 0 <= i < j < n ==> pair_order(n).contains((i, j)),
        forall|k1: int, k2: int|
            0 <= k1 < k2 < pair_order(n).len() ==> lex_lt(
                #[trigger] pair_order(n)[k1],
                #[trigger] pair_order(n)[k2],
            ),
        forall|k1: int, k2: int|
            0 <= k1 < k2 < pair_order(n).len() ==> #[trigger] pair_order(n)[k1]
                != #[trigger] pair_order(n)[k2],
{
    lemma_rows(n, n);
    assert forall|k1: int, k2: int| 0 <= k1 < k2 < pair_order(n).len() implies #[trigger] pair_order(
        n,
    )[k1] != #[trigger] pair_order(n)[k2] by {
        assert(lex_lt(rows(n, n)[k1], rows(n, n)[k2]));
    }
}

/// A step does not depend on the forces the particles carried before it: they are reset
/// before the pairs are resolved.
pub proof fn lemma_step_ignores_old_forces(
    c: ParticleContainer,
    law: InteractionLaw,
    ps: Seq<Particle>,
    qs: Seq<Particle>,
    dt: int,
)
    requires
        ps.len() == qs.len(),
        forall|k: int| 0 <= k < ps.len() ==> (#[trigger] ps[k]).with_force(Vec2::zero())
            == qs[k].with_force(Vec2::zero()),
    ensures
        stepped(c, law, ps, dt) == stepped(c, law, qs, dt),
{
    assert(reset_all(ps) =~= reset_all(qs));
}

/// Resolves every pair `i < j` once, in lexicographic order of indices.
pub fn interact_all(law: &InteractionLaw, particles: &mut Vec<Particle>)
    requires
        law.wf(),
        all_wf(old(particles)@),
    ensures
        final(particles)@ == apply_pairs(*law, old(particles)@, pair_order(old(particles)@.len() as int)),
        final(particles)@.len() == old(particles)@.len(),
        all_wf(final(particles)@),
{
    let ghost start = particles@;
    let n: usize = particles.len();
    let mut i: usize = 0;
    while i < n
        invariant
            0 <= i <= n,
            n == particles@.len(),
            law.wf(),
            all_wf(particles@),
            particles@ == apply_pairs(*law, start, rows(n as int, i as int)),
        decreases n - i,
    {
        let mut j: usize = i + 1;
        while j < n
            invariant
                i < n,
                i + 1 <= j <= n,
                n == particles@.len(),
                law.wf(),
                all_wf(particles@),
                particles@ == apply_pairs(
                    *law,
                    start,
                    rows(n as int, i as int) + row(n as int, i as int).take(j - i - 1),
                ),
            decreases n - j,
        {
            let ghost before = particles@;
            let mut a: Particle = particles[i];
            let mut b: Particle = particles[j];
            law.resolve(&mut a, &mut b);
            particles.set(i, a);
            particles.set(j, b);
            proof {
                let pre = rows(n as int, i as int) + row(n as int, i as int).take(j - i - 1);
                let post = rows(n as int, i as int) + row(n as int, i as int).take(j - i);
                assert(post.drop_last() =~= pre);
                assert(post.last() == (i as int, j as int));
                assert(particles@ =~= apply_pair(*law, before, (i as int, j as int)));
            }
            j = j + 1;
        }
        proof {
            let r = row(n as int, i as int);
            assert(r.take(n - i - 1) =~= r);
            assert(rows(n as int, i as int + 1) == rows(n as int, i as int) + r);
        }
        i = i + 1;
    }
}

/// Sub-steps a frame is divided into unless configured otherwise.
pub const DEFAULT_SUBSTEPS: u64 = 20;

pub open spec fn reset_all(ps: Seq<Particle>) -> Seq<Particle> {
    Seq::new(ps.len(), |k: int| ps[k].with_force(Vec2::zero()))
}

pub open spec fn advance_all(c: ParticleContainer, ps: Seq<Particle>, dt: int) -> Seq<Particle> {
    Seq::new(ps.len(), |k: int| c.collided(ps[k].integrated(dt)))
}

/// One time step: forces reset, every pair resolved once, each particle integrated and
/// then kept inside the container.
pub open spec fn stepped(c: ParticleContainer, law: InteractionLaw, ps: Seq<Particle>, dt: int) -> Seq<Particle> {
    advance_all(c, apply_pairs(law, reset_all(ps), pair_order(ps.len() as int)), dt)
}

/// `n` time steps of `dt` in a row.
pub open spec fn stepped_n(c: ParticleContainer, law: InteractionLaw, ps: Seq<Particle>, dt: int, n: nat) -> Seq<Particle>
    decreases n,
{
    if n == 0 {
        ps
    } else {
        stepped(c, law, stepped_n(c, law, ps, dt, (n - 1) as nat), dt)
    }
}

/// Sum of the particles' kinetic energies.
pub open spec fn total_energy(ps: Seq<Particle>) -> int
    decreases ps.len(),
{
    if ps.len() == 0 {
        0
    } else {
        total_energy(ps.drop_last()) + ps.last().energy()
    }
}

/// The centre lies left of `mid` (`left`), or at or right of it (`!left`).
pub open spec fn on_side(p: Particle, mid: int, left: bool) -> bool {
    (p.position.x < mid) == left
}

/// Sum of the kinetic energies of the particles on one side of `mid`.
pub open spec fn side_energy(ps: Seq<Particle>, mid: int, left: bool) -> int
    decreases ps.len(),
{
    if ps.len() == 0 {
        0
    } else {
        side_energy(ps.drop_last(), mid, left) + if on_side(ps.last(), mid, left) {
            ps.last().energy()
        } else {
            0
        }
    }
}

/// Number of particles on one side of `mid`.
pub open spec fn side_count(ps: Seq<Particle>, mid: int, left: bool) -> int
    decreases ps.len(),
{
    if ps.len() == 0 {
        0
    } else {
        side_count(ps.drop_last(), mid, left) + if on_side(ps.last(), mid, left) {
            1int
        } else {
            0
        }
    }
}

/// Average energy on one side of `mid`, 0 where that side is empty.
pub open spec fn temperature(ps: Seq<Particle>, mid: int, left: bool) -> int {
    if side_count(ps, mid, left) == 0 {
        0
    } else {
        side_energy(ps, mid, left) / side_count(ps, mid, left)
    }
}

/// Energies on one side never exceed the count there times the largest energy.
proof fn lemma_side_bound(ps: Seq<Particle>, mid: int, left: bool)
    requires
        all_wf(ps),
    ensures
        0 <= side_count(ps, mid, left) <= ps.len(),
        0 <= side_energy(ps, mid, left) <= side_count(ps, mid, left) * (LIMIT * LIMIT),
    decreases ps.len(),
{
    if ps.len() > 0 {
        let rest = ps.drop_last();
        assert(all_wf(rest)) by {
            assert forall|k: int| 0 <= k < rest.len() implies (#[trigger] rest[k]).wf() by {
                assert(rest[k] == ps[k]);
            }
        }
        lemma_side_bound(rest, mid, left);
        assert(ps.last().wf());
        let c = side_count(rest, mid, left);
        let l2: int = LIMIT * LIMIT;
        assert((c + 1) * l2 == c * l2 + l2) by (nonlinear_arith);
        assert(0 <= ps.last().energy() <= l2) by (nonlinear_arith)
            requires
                -LIMIT <= ps.last().velocity.x <= LIMIT,
                -LIMIT <= ps.last().velocity.y <= LIMIT,
                l2 == LIMIT * LIMIT,
                ps.last().energy() == (ps.last().velocity.x * ps.last().velocity.x
                    + ps.last().velocity.y * ps.last().velocity.y) / 2,
        ;
    }
}

/// A prefix holds no more particles on a side than the whole sequence.
proof fn lemma_side_prefix(ps: Seq<Particle>, mid: int, left: bool, k: int)
    requires
        0 <= k <= ps.len(),
    ensures
        side_count(ps.take(k), mid, left) <= side_count(ps, mid, left),
    decreases ps.len() - k,
{
    if k == ps.len() {
        assert(ps.take(k) =~= ps);
    } else {
        assert(ps.take(k + 1).drop_last() =~= ps.take(k));
        lemma_side_prefix(ps, mid, left, k + 1);
    }
}

/// From `q * d <= s <= c * bound` with `c <= d` and `d > 0`: `q <= bound`.
proof fn lemma_quotient_bound(q: int, d: int, s: int, c: int, bound: int)
    requires
        d > 0,
        0 <= c <= d,
        0 <= bound,
        q * d <= s,
        s <= c * bound,
    ensures
        q <= bound,
{
    assert(c * bound <= d * bound) by (nonlinear_arith)
        requires
            0 <= c <= d,
            0 <= bound,
    ;
    assert(q <= bound) by (nonlinear_arith)
        requires
            d > 0,
            q * d <= d * bound,
    ;
}

/// Adds `e` to a running total kept as `q * n + r` with `0 <= r < n`, so that `q` is
/// the total divided by `n`, rounded down, while no intermediate value grows past it.
fn add_share(q: &mut u128, r: &mut u128, e: u128, n: u128)
    requires
        0 < n <= 0xffff_ffff_ffff_ffff,
        *old(r) < n,
        *old(q) <= LIMIT * LIMIT,
        e <= LIMIT * LIMIT,
    ensures
        *final(q) * n + *final(r) == *old(q) * n + *old(r) + e,
        *final(r) < n,
{
    let eq: u128 = e / n;
    let er: u128 = e % n;
    proof {
        vstd::arithmetic::div_mod::lemma_fundamental_div_mod(e as int, n as int);
        assert(eq <= e) by (nonlinear_arith)
            requires
                eq == e as int / n as int,
                n > 0,
        ;
        assert((*q + eq) * n == *q * n + eq * n) by (nonlinear_arith);
        assert((*q + eq + 1) * n == *q * n + eq * n + n) by (nonlinear_arith);
    }
    *q = *q + eq;
    *r = *r + er;
    if *r >= n {
        *q = *q + 1;
        *r = *r - n;
    }
}

pub fn reset_forces(particles: &mut Vec<Particle>)
    requires
        all_wf(old(particles)@),
    ensures
        final(particles)@ == reset_all(old(particles)@),
        all_wf(final(particles)@),
{
    let ghost start = particles@;
    let n: usize = particles.len();
    let mut k: usize = 0;
    while k < n
        invariant
            0 <= k <= n,
            n == particles@.len(),
            n == start.len(),
            all_wf(start),
            forall|m: int| 0 <= m < k ==> particles@[m] == start[m].with_force(Vec2::zero()),
            forall|m: int| k <= m < n ==> particles@[m] == start[m],
        decreases n - k,
    {
        let mut p: Particle = particles[k];
        p.reset_force();
        particles.set(k, p);
        k = k + 1;
    }
    assert(particles@ =~= reset_all(start));
}

pub fn advance_particles(container: &ParticleContainer, particles: &mut Vec<Particle>, dt: i64)
    requires
        container.wf(),
        all_wf(old(particles)@),
        0 <= dt,
    ensures
        final(particles)@ == advance_all(*container, old(particles)@, dt as int),
        all_wf(final(particles)@),
{
    let ghost start = particles@;
    let n: usize = particles.len();
    let mut k: usize = 0;
    while k < n
        invariant
            0 <= k <= n,
            n == particles@.len(),
            n == start.len(),
            container.wf(),
            0 <= dt,
            all_wf(start),
            forall|m: int| 0 <= m < k ==> particles@[m] == container.collided(start[m].integrated(dt as int)),
            forall|m: int| 0 <= m < k ==> (#[trigger] particles@[m]).wf(),
            forall|m: int| k <= m < n ==> particles@[m] == start[m],
        decreases n - k,
    {
        let mut p: Particle = particles[k];
        assert(start[k as int].wf());
        p.update(dt);
        container.collision(&mut p);
        particles.set(k, p);
        k = k + 1;
    }
    assert(particles@ =~= advance_all(*container, start, dt as int));
}

/// Particles in a box under one interaction law, with the host's controls.
pub struct MainState {
    pub particles: Vec<Particle>,
    pub container: ParticleContainer,
    pub law: InteractionLaw,
    /// A control value in `[0, 100]` kept for the host; the physics does not read it.
    pub slider_value: i64,
    pub paused: bool,
    /// Sub-steps each frame is divided into.
    pub substeps: u64,
}

impl MainState {
    pub open spec fn wf(self) -> bool {
        &&& self.container.wf()
        &&& all_wf(self.particles@)
        &&& self.law.wf()
        &&& 0 <= self.slider_value <= 100
        &&& 1 <= self.substeps
    }

    pub open spec fn law_in_force(self) -> InteractionLaw {
        self.law
    }

    /// Sets the host's control value, held to `[0, 100]`.
    pub fn set_slider(&mut self, value: i64)
        requires
            old(self).wf(),
        ensures
            final(self).wf(),
            final(self).slider_value == if value < 0 { 0 } else if value > 100 { 100 } else { value },
            final(self).particles == old(self).particles,
            final(self).container == old(self).container,
            final(self).law == old(self).law,
            final(self).paused == old(self).paused,
            final(self).substeps == old(self).substeps,
    {
        self.slider_value = if value < 0 { 0 } else if value > 100 { 100 } else { value };
    }

    /// Flips between paused and running.
    pub fn pause_play(&mut self)
        ensures
            final(self).paused == !old(self).paused,
            final(self).particles == old(self).particles,
            final(self).container == old(self).container,
            final(self).law == old(self).law,
            final(self).slider_value == old(self).slider_value,
            final(self).substeps == old(self).substeps,
    {
        self.paused = !self.paused;
    }

    /// One time step of `dt` ticks: forces reset, all pairs resolved, then integration
    /// and the container's walls.
    pub fn compute_single_interaction(&mut self, dt: i64)
        requires
            old(self).wf(),
            0 <= dt,
        ensures
            final(self).wf(),
            final(self).particles@ == stepped(old(self).container, old(self).law_in_force(), old(self).particles@, dt as int),
            final(self).particles@.len() == old(self).particles@.len(),
            final(self).container == old(self).container,
            final(self).law == old(self).law,
            final(self).slider_value == old(self).slider_value,
            final(self).paused == old(self).paused,
            final(self).substeps == old(self).substeps,
    {
        let law: InteractionLaw = self.law;
        reset_forces(&mut self.particles);
        interact_all(&law, &mut self.particles);
        advance_particles(&self.container, &mut self.particles, dt);
    }

    /// Advances one frame of `dt` ticks as `substeps` equal steps (the remainder of
    /// the division is dropped).
    pub fn update_state(&mut self, dt: i64)
        requires
            old(self).wf(),
            0 <= dt,
        ensures
            final(self).wf(),
            final(self).particles@ == stepped_n(
                old(self).container,
                old(self).law_in_force(),
                old(self).particles@,
                dt as int / old(self).substeps as int,
                old(self).substeps as nat,
            ),
            final(self).particles@.len() == old(self).particles@.len(),
            final(self).container == old(self).container,
            final(self).law == old(self).law,
            final(self).slider_value == old(self).slider_value,
            final(self).paused == old(self).paused,
            final(self).substeps == old(self).substeps,
    {
        let sub: i64 = if self.substeps > 0x7fff_ffff_ffff_ffff {
            proof {
                vstd::arithmetic::div_mod::lemma_basic_div(dt as int, self.substeps as int);
            }
            0
        } else {
            dt / self.substeps as i64
        };
        let ghost start = self.particles@;
        let mut i: u64 = 0;
        while i < self.substeps
            invariant
                self.wf(),
                0 <= sub,
                self.particles@.len() == start.len(),
                sub == dt as int / self.substeps as int,
                i <= self.substeps,
                self.container == old(self).container,
                self.law == old(self).law,
                self.slider_value == old(self).slider_value,
                self.paused == old(self).paused,
                self.substeps == old(self).substeps,
                self.particles@ == stepped_n(self.container, self.law_in_force(), start, sub as int, i as nat),
            decreases self.substeps - i,
        {
            self.compute_single_interaction(sub);
            i = i + 1;
        }
    }

    /// Average kinetic energy of the particles, rounded down; `None` when there are none.
    pub fn average_kinetic_energy(&self) -> (r: Option<u128>)
        requires
            self.wf(),
        ensures
            self.particles@.len() == 0 ==> r == None::<u128>,
            self.particles@.len() > 0 ==> r == Some((total_energy(self.particles@) / self.particles@.len() as int) as u128),
    {
        let n: usize = self.particles.len();
        if n == 0 {
            return None;
        }
        let ghost ps = self.particles@;
        let ghost l2: int = LIMIT * LIMIT;
        let d: u128 = n as u128;
        let mut q: u128 = 0;
        let mut rem: u128 = 0;
        let mut k: usize = 0;
        while k < n
            invariant
                self.wf(),
                ps == self.particles@,
                n == ps.len(),
                d == n,
                l2 == LIMIT * LIMIT,
                0 <= k <= n,
                total_energy(ps.take(k as int)) == q * d + rem,
                rem < d,
                q <= l2,
                0 <= total_energy(ps.take(k as int)) <= k * l2,
            decreases n - k,
        {
            assert(ps[k as int].wf());
            let e: u128 = self.particles[k].kinetic_energy();
            add_share(&mut q, &mut rem, e, d);
            proof {
                assert(ps.take(k + 1).drop_last() =~= ps.take(k as int));
                assert((k + 1) * l2 == k * l2 + l2) by (nonlinear_arith);
                lemma_quotient_bound(q as int, d as int, total_energy(ps.take(k + 1)), k + 1, l2);
            }
            k = k + 1;
        }
        assert(ps.take(n as int) =~= ps);
        proof {
            vstd::arithmetic::div_mod::lemma_fundamental_div_mod_converse(
                total_energy(ps),
                d as int,
                q as int,
                rem as int,
            );
        }
        Some(q)
    }

    /// Average kinetic energy left of the container's midline and at or right of it,
    /// each 0 where that side holds no particle.
    pub fn temperatures(&self) -> (r: (u128, u128))
        requires
            self.wf(),
        ensures
            r.0 as int == temperature(self.particles@, self.container.midline(), true),
            r.1 as int == temperature(self.particles@, self.container.midline(), false),
    {
        let ghost ps = self.particles@;
        let ghost l2: int = LIMIT * LIMIT;
        let mid: i64 = self.container.x_min + (self.container.x_max - self.container.x_min) / 2;
        let n: usize = self.particles.len();
        let mut left_count: u128 = 0;
        let mut right_count: u128 = 0;
        let mut k: usize = 0;
        while k < n
            invariant
                ps == self.particles@,
                n == ps.len(),
                0 <= k <= n,
                left_count as int == side_count(ps.take(k as int), mid as int, true),
                right_count as int == side_count(ps.take(k as int), mid as int, false),
                left_count + right_count == k,
            decreases n - k,
        {
            proof {
                assert(ps.take(k + 1).drop_last() =~= ps.take(k as int));
            }
            if self.particles[k].position.x < mid {
                left_count = left_count + 1;
            } else {
                right_count = right_count + 1;
            }
            k = k + 1;
        }
        assert(ps.take(n as int) =~= ps);
        let dl: u128 = if left_count == 0 { 1 } else { left_count };
        let dr: u128 = if right_count == 0 { 1 } else { right_count };
        let mut ql: u128 = 0;
        let mut rl: u128 = 0;
        let mut qr: u128 = 0;
        let mut rr: u128 = 0;
        k = 0;
        while k < n
            invariant
                self.wf(),
                ps == self.particles@,
                mid == self.container.midline(),
                n == ps.len(),
                l2 == LIMIT * LIMIT,
                0 <= k <= n,
                left_count as int == side_count(ps, mid as int, true),
                right_count as int == side_count(ps, mid as int, false),
                left_count + right_count == n,
                dl == if left_count == 0 { 1 } else { left_count },
                dr == if right_count == 0 { 1 } else { right_count },
                side_energy(ps.take(k as int), mid as int, true) == ql * dl + rl,
                side_energy(ps.take(k as int), mid as int, false) == qr * dr + rr,
                rl < dl,
                rr < dr,
                ql <= l2,
                qr <= l2,
            decreases n - k,
        {
            assert(ps[k as int].wf());
            let e: u128 = self.particles[k].kinetic_energy();
            let ghost next = ps.take(k + 1);
            proof {
                assert(next.drop_last() =~= ps.take(k as int));
            }
            if self.particles[k].position.x < mid {
                add_share(&mut ql, &mut rl, e, dl);
            } else {
                add_share(&mut qr, &mut rr, e, dr);
            }
            proof {
                assert(all_wf(next)) by {
                    assert forall|m: int| 0 <= m < next.len() implies (#[trigger] next[m]).wf() by {
                        assert(next[m] == ps[m]);
                    }
                }
                lemma_side_bound(next, mid as int, true);
                lemma_side_bound(next, mid as int, false);
                lemma_side_prefix(ps, mid as int, true, k + 1);
                lemma_side_prefix(ps, mid as int, false, k + 1);
                lemma_quotient_bound(ql as int, dl as int, side_energy(next, mid as int, true), side_count(next, mid as int, true), l2);
                lemma_quotient_bound(qr as int, dr as int, side_energy(next, mid as int, false), side_count(next, mid as int, false), l2);
            }
            k = k + 1;
        }
        assert(ps.take(n as int) =~= ps);
        proof {
            vstd::arithmetic::div_mod::lemma_fundamental_div_mod_converse(
                side_energy(ps, mid as int, true), dl as int, ql as int, rl as int);
            vstd::arithmetic::div_mod::lemma_fundamental_div_mod_converse(
                side_energy(ps, mid as int, false), dr as int, qr as int, rr as int);
            assert(all_wf(ps));
            lemma_side_bound(ps, mid as int, true);
            lemma_side_bound(ps, mid as int, false);
        }
        let left: u128 = if left_count == 0 { 0 } else { ql };
        let right: u128 = if right_count == 0 { 0 } else { qr };
        (left, right)
    }

    /// A simulation of one particle per given velocity, each placed at random in a
    /// `width` by `height` box with its corner at the origin, under the given law; the
    /// positions are drawn from `rng`.
    pub fn new(
        width: i64,
        height: i64,
        gate: bool,
        velocities: &Vec<Vec2>,
        law: InteractionLaw,
        rng: &mut StdRng,
    ) -> (r: Result<MainState, ConfigError>)
        ensures
            !Self::walls_ok(width, height) ==> r == Err::<MainState, ConfigError>(ConfigError::BadWalls),
            Self::walls_ok(width, height) && !law.wf() ==> r == Err::<MainState, ConfigError>(ConfigError::BadLaw),
            Self::walls_ok(width, height) && law.wf() && !Particle::fits(Self::box_of(width, height, gate))
                ==> r == Err::<MainState, ConfigError>(ConfigError::ContainerTooSmall),
            Self::walls_ok(width, height) && law.wf() && Particle::fits(Self::box_of(width, height, gate))
                && (exists|k: int| 0 <= k < velocities@.len() && !(#[trigger] velocities@[k]).wf())
                ==> r == Err::<MainState, ConfigError>(ConfigError::OutOfRange),
            Self::walls_ok(width, height) && law.wf() && Particle::fits(Self::box_of(width, height, gate))
                && (forall|k: int| 0 <= k < velocities@.len() ==> (#[trigger] velocities@[k]).wf())
                ==> r is Ok,
            r matches Ok(s) ==> {
                &&& s.wf()
                &&& s.container == Self::box_of(width, height, gate)
                &&& s.law == law
                &&& !s.paused
                &&& s.slider_value == 50
                &&& s.substeps == DEFAULT_SUBSTEPS
                &&& s.particles@.len() == velocities@.len()
                &&& forall|k: int| 0 <= k < velocities@.len() ==> {
                    let p = #[trigger] s.particles@[k];
                    &&& p.velocity == velocities@[k]
                    &&& p.force == Vec2::zero()
                    &&& p.radius == crate::particles::PARTICLE_RADIUS
                    &&& Particle::placed_in(p, s.container)
                }
            },
    {
        let mut container = match ParticleContainer::new(0, 0, height, width) {
            Ok(c) => c,
            Err(e) => {
                return Err(e);
            },
        };
        container.set_gate(gate);
        if !law.is_valid() {
            return Err(ConfigError::BadLaw);
        }
        let n: usize = velocities.len();
        let rad: i64 = crate::particles::PARTICLE_RADIUS;
        if width <= 2 * rad || height <= 2 * rad {
            return Err(ConfigError::ContainerTooSmall);
        }
        let mut particles: Vec<Particle> = Vec::new();
        let mut k: usize = 0;
        while k < n
            invariant
                container == Self::box_of(width, height, gate),
                container.wf(),
                law.wf(),
                Particle::fits(container),
                n == velocities@.len(),
                0 <= k <= n,
                particles@.len() == k,
                forall|m: int| 0 <= m < k ==> (#[trigger] velocities@[m]).wf(),
                forall|m: int| 0 <= m < k ==> {
                    let p = #[trigger] particles@[m];
                    &&& p.wf()
                    &&& p.velocity == velocities@[m]
                    &&& p.force == Vec2::zero()
                    &&& p.radius == crate::particles::PARTICLE_RADIUS
                    &&& Particle::placed_in(p, container)
                },
            decreases n - k,
        {
            match Particle::new(&container, velocities[k], rng) {
                Ok(p) => {
                    particles.push(p);
                },
                Err(e) => {
                    return Err(e);
                },
            }
            k = k + 1;
        }
        Ok(MainState { particles, container, law, slider_value: 50, paused: false, substeps: DEFAULT_SUBSTEPS })
    }

    pub open spec fn walls_ok(width: i64, height: i64) -> bool {
        0 < width <= crate::container::WALL_LIMIT && 0 < height <= crate::container::WALL_LIMIT
    }

    pub open spec fn box_of(width: i64, height: i64, gate: bool) -> ParticleContainer {
        ParticleContainer { x_min: 0, y_min: 0, y_max: height, x_max: width, demon_looking: gate }
    }
}


/// Sum of the horizontal force components.
pub open spec fn force_sum_x(ps: Seq<Particle>) -> int
    decreases ps.len(),
{
    if ps.len() == 0 {
        0
    } else {
        force_sum_x(ps.drop_last()) + ps.last().force.x
    }
}

/// Sum of the vertical force components.
pub open spec fn force_sum_y(ps: Seq<Particle>) -> int
    decreases ps.len(),
{
    if ps.len() == 0 {
        0
    } else {
        force_sum_y(ps.drop_last()) + ps.last().force.y
    }
}

/// No force component saturates at any pair of a Coulomb pass over `pairs`.
pub open spec fn coulomb_pass_unsaturated(law: CoulombLaw, ps: Seq<Particle>, pairs: Seq<(int, int)>) -> bool
    decreases pairs.len(),
{
    if pairs.len() == 0 {
        true
    } else {
        let cur = apply_pairs(InteractionLaw::Coulomb(law), ps, pairs.drop_last());
        &&& coulomb_pass_unsaturated(law, ps, pairs.drop_last())
        &&& coulomb_unsaturated(law, cur[pairs.last().0], cur[pairs.last().1])
    }
}

proof fn lemma_force_sum_update(ps: Seq<Particle>, i: int, p: Particle)
    requires
        0 <= i < ps.len(),
    ensures
        force_sum_x(ps.update(i, p)) == force_sum_x(ps) - ps[i].force.x + p.force.x,
        force_sum_y(ps.update(i, p)) == force_sum_y(ps) - ps[i].force.y + p.force.y,
    decreases ps.len(),
{
    let u = ps.update(i, p);
    if i == ps.len() - 1 {
        assert(u.drop_last() =~= ps.drop_last());
    } else {
        assert(u.drop_last() =~= ps.drop_last().update(i, p));
        lemma_force_sum_update(ps.drop_last(), i, p);
    }
}

proof fn lemma_force_sum_reset(ps: Seq<Particle>)
    ensures
        force_sum_x(reset_all(ps)) == 0,
        force_sum_y(reset_all(ps)) == 0,
    decreases ps.len(),
{
    if ps.len() > 0 {
        assert(reset_all(ps).drop_last() =~= reset_all(ps.drop_last()));
        lemma_force_sum_reset(ps.drop_last());
    }
}

proof fn lemma_apply_pairs_len(law: InteractionLaw, ps: Seq<Particle>, pairs: Seq<(int, int)>)
    requires
        forall|k: int| 0 <= k < pairs.len() ==> 0 <= (#[trigger] pairs[k]).0 < pairs[k].1 < ps.len(),
    ensures
        apply_pairs(law, ps, pairs).len() == ps.len(),
    decreases pairs.len(),
{
    if pairs.len() > 0 {
        let front = pairs.drop_last();
        assert forall|k: int| 0 <= k < front.len() implies 0 <= (#[trigger] front[k]).0 < front[k].1
            < ps.len() by {
            assert(front[k] == pairs[k]);
        }
        lemma_apply_pairs_len(law, ps, front);
        assert(0 <= pairs.last().0 < pairs.last().1 < ps.len());
    }
}

proof fn lemma_coulomb_pairs_keep_sum(law: CoulombLaw, ps: Seq<Particle>, pairs: Seq<(int, int)>)
    requires
        forall|k: int| 0 <= k < pairs.len() ==> 0 <= (#[trigger] pairs[k]).0 < pairs[k].1 < ps.len(),
        coulomb_pass_unsaturated(law, ps, pairs),
    ensures
        force_sum_x(apply_pairs(InteractionLaw::Coulomb(law), ps, pairs)) == force_sum_x(ps),
        force_sum_y(apply_pairs(InteractionLaw::Coulomb(law), ps, pairs)) == force_sum_y(ps),
    decreases pairs.len(),
{
    if pairs.len() > 0 {
        let front = pairs.drop_last();
        assert forall|k: int| 0 <= k < front.len() implies 0 <= (#[trigger] front[k]).0 < front[k].1
            < ps.len() by {
            assert(front[k] == pairs[k]);
        }
        lemma_coulomb_pairs_keep_sum(law, ps, front);
        let l = InteractionLaw::Coulomb(law);
        let cur = apply_pairs(l, ps, front);
        lemma_apply_pairs_len(l, ps, front);
        let p = pairs.last();
        assert(0 <= p.0 < p.1 < ps.len());
        let out = l.outcome(cur[p.0], cur[p.1]);
        let mid = cur.update(p.0, out.1);
        lemma_force_sum_update(cur, p.0, out.1);
        lemma_force_sum_update(mid, p.1, out.2);
        assert(mid[p.1] == cur[p.1]);
    }
}

/// A Coulomb pass started from reset forces leaves forces that sum to zero, unless a
/// component saturates: each pair adds equal and opposite contributions.
pub proof fn lemma_coulomb_pass_force_sum(law: CoulombLaw, ps: Seq<Particle>)
    requires
        coulomb_pass_unsaturated(law, reset_all(ps), pair_order(ps.len() as int)),
    ensures
        force_sum_x(apply_pairs(InteractionLaw::Coulomb(law), reset_all(ps), pair_order(ps.len() as int))) == 0,
        force_sum_y(apply_pairs(InteractionLaw::Coulomb(law), reset_all(ps), pair_order(ps.len() as int))) == 0,
{
    let n = ps.len() as int;
    lemma_pair_order_unique(n);
    lemma_coulomb_pairs_keep_sum(law, reset_all(ps), pair_order(n));
    lemma_force_sum_reset(ps);
}


/// What the Coulomb law adds to particle `i` (horizontally, or vertically when
/// `!horizontal`) for the pair `p` of `ps`: minus the pair's force when `i` is the
/// first index, plus it when `i` is the second, nothing otherwise.
pub open spec fn coulomb_share(law: CoulombLaw, ps: Seq<Particle>, p: (int, int), i: int, horizontal: bool) -> int {
    let a = ps[p.0];
    let b = ps[p.1];
    let f = if !law.acts(a, b) {
        0
    } else if horizontal {
        law.force_along(a, b, crate::laws::dx(a, b))
    } else {
        law.force_along(a, b, crate::laws::dy(a, b))
    };
    if p.0 == i {
        -f
    } else if p.1 == i {
        f
    } else {
        0
    }
}

/// The shares of particle `i` summed over the pairs.
pub open spec fn coulomb_shares(law: CoulombLaw, ps: Seq<Particle>, pairs: Seq<(int, int)>, i: int, horizontal: bool) -> int
    decreases pairs.len(),
{
    if pairs.len() == 0 {
        0
    } else {
        coulomb_shares(law, ps, pairs.drop_last(), i, horizontal) + coulomb_share(
            law,
            ps,
            pairs.last(),
            i,
            horizontal,
        )
    }
}

/// A Coulomb pass moves nothing, and leaves each particle's force equal to its force
/// before plus its share of every pair of the pass, each computed at the starting
/// positions, unless a component saturates. With `pair_order`, in which every pair
/// occurs once, each pair is counted once.
pub proof fn lemma_coulomb_pass_forces(law: CoulombLaw, ps: Seq<Particle>, pairs: Seq<(int, int)>)
    requires
        forall|k: int| 0 <= k < pairs.len() ==> 0 <= (#[trigger] pairs[k]).0 < pairs[k].1 < ps.len(),
        coulomb_pass_unsaturated(law, ps, pairs),
    ensures
        apply_pairs(InteractionLaw::Coulomb(law), ps, pairs).len() == ps.len(),
        forall|k: int| 0 <= k < ps.len() ==> {
            let q = #[trigger] apply_pairs(InteractionLaw::Coulomb(law), ps, pairs)[k];
            &&& q.position == ps[k].position
            &&& q.velocity == ps[k].velocity
            &&& q.radius == ps[k].radius
            &&& q.force.x == ps[k].force.x + coulomb_shares(law, ps, pairs, k, true)
            &&& q.force.y == ps[k].force.y + coulomb_shares(law, ps, pairs, k, false)
        },
    decreases pairs.len(),
{
    let l = InteractionLaw::Coulomb(law);
    lemma_apply_pairs_len(l, ps, pairs);
    if pairs.len() > 0 {
        let front = pairs.drop_last();
        assert forall|k: int| 0 <= k < front.len() implies 0 <= (#[trigger] front[k]).0 < front[k].1
            < ps.len() by {
            assert(front[k] == pairs[k]);
        }
        lemma_coulomb_pass_forces(law, ps, front);
        let cur = apply_pairs(l, ps, front);
        let p = pairs.last();
        assert(0 <= p.0 < p.1 < ps.len());
        let a = cur[p.0];
        let b = cur[p.1];
        assert(a.position == ps[p.0].position && a.radius == ps[p.0].radius);
        assert(b.position == ps[p.1].position && b.radius == ps[p.1].radius);
        assert(law.acts(a, b) == law.acts(ps[p.0], ps[p.1]));
        let out = apply_pairs(l, ps, pairs);
        assert forall|k: int| 0 <= k < ps.len() implies {
            let q = #[trigger] out[k];
            &&& q.position == ps[k].position
            &&& q.velocity == ps[k].velocity
            &&& q.radius == ps[k].radius
            &&& q.force.x == ps[k].force.x + coulomb_shares(law, ps, pairs, k, true)
            &&& q.force.y == ps[k].force.y + coulomb_shares(law, ps, pairs, k, false)
        } by {
            assert(cur[k].position == ps[k].position);
            assert(cur[k].force.x == ps[k].force.x + coulomb_shares(law, ps, front, k, true));
            assert(cur[k].force.y == ps[k].force.y + coulomb_shares(law, ps, front, k, false));
        }
    }
}


/// In a step under the Coulomb law, the pass starts from reset forces: afterwards each
/// particle's force is exactly the sum of its shares over `pair_order`, in which every
/// pair `i < j` occurs once, unless a component saturates.
pub proof fn lemma_coulomb_step_forces(law: CoulombLaw, ps: Seq<Particle>)
    requires
        coulomb_pass_unsaturated(law, reset_all(ps), pair_order(ps.len() as int)),
    ensures
        forall|k: int| 0 <= k < ps.len() ==> {
            let q = #[trigger] apply_pairs(InteractionLaw::Coulomb(law), reset_all(ps), pair_order(ps.len() as int))[k];
            &&& q.force.x == coulomb_shares(law, reset_all(ps), pair_order(ps.len() as int), k, true)
            &&& q.force.y == coulomb_shares(law, reset_all(ps), pair_order(ps.len() as int), k, false)
        },
{
    let n = ps.len() as int;
    lemma_pair_order_unique(n);
    lemma_coulomb_pass_forces(law, reset_all(ps), pair_order(n));
}

} // verus!
