use maxwell_demon::container::ParticleContainer;
use maxwell_demon::fixed::isqrt;
use maxwell_demon::laws::{
    build_interaction_law, CoulombLaw, ImpulseCollision, InteractionLaw, InteractionLawType,
};
use maxwell_demon::particles::{ConfigError, Particle, Vec2, PARTICLE_RADIUS};
use maxwell_demon::simulation::{interact_all, MainState};
use rand::rngs::StdRng;
use rand::SeedableRng;

fn v(x: i64, y: i64) -> Vec2 {
    Vec2 { x, y }
}

fn particle(x: i64, y: i64, vx: i64, vy: i64, r: i64) -> Particle {
    Particle::with_state(v(x, y), v(vx, vy), r).unwrap()
}

fn rng() -> StdRng {
    StdRng::seed_from_u64(7)
}

fn square_box(side: i64) -> ParticleContainer {
    ParticleContainer::new(0, 0, side, side).unwrap()
}

#[test]
fn impulse_head_on_swaps_velocities_and_separates() {
    let law = ImpulseCollision::new(1000, 800, 10);
    let mut a = particle(0, 0, 5000, 0, 5000);
    let mut b = particle(8000, 0, -5000, 0, 5000);
    assert!(law.resolve(&mut a, &mut b));
    assert_eq!(a.velocity, v(-5000, 0));
    assert_eq!(b.velocity, v(5000, 0));
    assert_eq!(b.position.x - a.position.x, 10000);
    assert_eq!(a.position.y, 0);
    assert_eq!(b.position.y, 0);
}

#[test]
fn impulse_conserves_momentum_on_oblique_hit() {
    let law = ImpulseCollision::new(1000, 800, 10);
    let mut a = particle(0, 0, 7000, 2000, 5000);
    let mut b = particle(6000, 3000, -1000, -4000, 5000);
    let before = (a.velocity.x + b.velocity.x, a.velocity.y + b.velocity.y);
    assert!(law.resolve(&mut a, &mut b));
    assert_ne!(a.velocity, v(7000, 2000));
    assert_eq!((a.velocity.x + b.velocity.x, a.velocity.y + b.velocity.y), before);
}

#[test]
fn impulse_apart_returns_false() {
    let law = ImpulseCollision::new(1000, 800, 10);
    let mut a = particle(0, 0, 5000, 0, 5000);
    let mut b = particle(10000, 0, -5000, 0, 5000);
    let (a0, b0) = (a, b);
    assert!(!law.resolve(&mut a, &mut b));
    assert_eq!((a, b), (a0, b0));
}

#[test]
fn impulse_separating_pair_is_skipped() {
    let law = ImpulseCollision::new(1000, 800, 10);
    let mut a = particle(0, 0, -5000, 0, 5000);
    let mut b = particle(8000, 0, 5000, 0, 5000);
    let (a0, b0) = (a, b);
    assert!(law.resolve(&mut a, &mut b));
    assert_eq!((a, b), (a0, b0));
}

#[test]
fn impulse_coincident_centres_are_skipped() {
    let law = ImpulseCollision::new(1000, 800, 10);
    let mut a = particle(100, 100, 5000, 0, 5000);
    let mut b = particle(100, 100, -5000, 0, 5000);
    let (a0, b0) = (a, b);
    assert!(law.resolve(&mut a, &mut b));
    assert_eq!((a, b), (a0, b0));
}

#[test]
fn left_wall_pushes_flush_and_reflects() {
    let c = square_box(100_000);
    let mut p = particle(4500, 50_000, -3000, 700, 5000);
    c.collision(&mut p);
    assert_eq!(p.position.x, 5000);
    assert_eq!(p.velocity.x, 3000);
    assert_eq!(p.velocity.y, 700);
    assert_eq!(p.position.y, 50_000);
}

#[test]
fn other_walls_push_flush_and_reflect() {
    let c = square_box(100_000);
    let mut right = particle(97_000, 50_000, 2000, -600, 5000);
    c.collision(&mut right);
    assert_eq!(right.position.x, 95_000);
    assert_eq!(right.velocity, v(-2000, -600));

    let mut top = particle(30_000, 1000, 400, -2500, 5000);
    c.collision(&mut top);
    assert_eq!(top.position.y, 5000);
    assert_eq!(top.velocity, v(400, 2500));

    let mut ground = particle(30_000, 99_000, 400, 2500, 5000);
    c.collision(&mut ground);
    assert_eq!(ground.position.y, 95_000);
    assert_eq!(ground.velocity, v(400, -2500));
}

#[test]
fn corner_reflects_both_components_keeping_speed() {
    let c = square_box(100_000);
    let mut p = particle(2000, 3000, -3000, -4000, 5000);
    c.collision(&mut p);
    assert_eq!(p.position, v(5000, 5000));
    assert_eq!(p.velocity, v(3000, 4000));
    assert_eq!(p.kinetic_energy(), 12_500_000);
}

#[test]
fn particle_clear_of_walls_is_untouched() {
    let mut c = square_box(100_000);
    c.set_gate(true);
    let mut p = particle(20_000, 20_000, -3000, 700, 5000);
    let untouched = p;
    c.collision(&mut p);
    assert_eq!(p, untouched);
}

#[test]
fn coulomb_beyond_cutoff_adds_nothing() {
    let law = CoulombLaw::new(13_686_000_000_000, 1, 2_000_000);
    let mut a = particle(0, 0, 0, 0, 5000);
    let mut b = particle(3_000_000, 0, 0, 0, 5000);
    assert!(law.resolve(&mut a, &mut b));
    assert_eq!(a.force, v(0, 0));
    assert_eq!(b.force, v(0, 0));
}

#[test]
fn coulomb_within_cutoff_is_equal_and_opposite() {
    let law = CoulombLaw::new(1_000_000_000_000, 0, 2_000_000);
    let mut a = particle(0, 0, 0, 0, 5000);
    let mut b = particle(1000, 0, 0, 0, 5000);
    assert!(law.resolve(&mut a, &mut b));
    // k d / (d^2 d) along +x: 10^12 * 1000 / (10^6 * 1000) = 10^6
    assert_eq!(b.force, v(1_000_000, 0));
    assert_eq!(a.force, v(-1_000_000, 0));
}

#[test]
fn coulomb_close_range_is_floored() {
    let law = CoulombLaw::new(1_000_000_000_000, 0, 2_000_000);
    let mut a = particle(0, 0, 0, 0, 5000);
    let mut b = particle(0, 100, 0, 0, 5000);
    assert!(law.resolve(&mut a, &mut b));
    // d^2 = 10^4 is floored at 5000 * 100 = 5 * 10^5: 10^12 * 100 / (5 * 10^5 * 100) = 2 * 10^6
    assert_eq!(b.force, v(0, 2_000_000));
    assert_eq!(a.force, v(0, -2_000_000));
}

#[test]
fn coulomb_coincident_without_softening_adds_nothing() {
    let law = CoulombLaw::new(1_000_000_000_000, 0, 2_000_000);
    let mut a = particle(500, 500, 0, 0, 5000);
    let mut b = particle(500, 500, 0, 0, 5000);
    assert!(law.resolve(&mut a, &mut b));
    assert_eq!(a.force, v(0, 0));
    assert_eq!(b.force, v(0, 0));
}

#[test]
fn gate_lets_fast_leftward_particle_pass() {
    let mut c = square_box(100_000);
    c.set_gate(true);
    let mut p = particle(50_000, 50_000, -150_000, 0, 5000);
    let untouched = p;
    c.collision(&mut p);
    assert_eq!(p, untouched);
    p.update(10_000);
    assert!(p.position.x < 50_000);
}

#[test]
fn gate_turns_back_slow_leftward_particle() {
    let mut c = square_box(100_000);
    c.set_gate(true);
    let mut p = particle(50_000, 50_000, -100_000, 0, 5000);
    c.collision(&mut p);
    assert_eq!(p.velocity.x, 100_000);
    assert_eq!(p.position.x, 55_000);
}

#[test]
fn gate_sorts_rightward_particles_by_speed() {
    let mut c = square_box(100_000);
    c.set_gate(true);
    let mut slow = particle(50_000, 50_000, 5000, 0, 5000);
    let slow0 = slow;
    c.collision(&mut slow);
    assert_eq!(slow, slow0);

    let mut fast = particle(50_000, 50_000, 50_000, 0, 5000);
    c.collision(&mut fast);
    assert_eq!(fast.velocity.x, -50_000);
    assert_eq!(fast.position.x, 45_000);
}

#[test]
fn gate_thresholds_are_inclusive_for_passing() {
    let mut c = square_box(100_000);
    c.set_gate(true);
    let mut left = particle(50_000, 50_000, -140_000, 0, 5000);
    let left0 = left;
    c.collision(&mut left);
    assert_eq!(left, left0);

    let mut right = particle(50_000, 50_000, 10_000, 0, 5000);
    let right0 = right;
    c.collision(&mut right);
    assert_eq!(right, right0);
}

#[test]
fn gate_inactive_lets_everything_pass() {
    let c = square_box(100_000);
    let mut p = particle(50_000, 50_000, 50_000, 0, 5000);
    let untouched = p;
    c.collision(&mut p);
    assert_eq!(p, untouched);
}

#[test]
fn average_energy_of_empty_set_is_none() {
    let s = MainState::new(100_000, 100_000, false, &vec![], build_interaction_law(InteractionLawType::ImpulseCollision), &mut rng())
        .unwrap();
    assert_eq!(s.average_kinetic_energy(), None);
    assert_eq!(s.temperatures(), (0, 0));
}

#[test]
fn average_energy_and_temperatures() {
    let mut s = MainState::new(
        100_000,
        100_000,
        false,
        &vec![v(3000, 4000), v(1000, 0)],
        build_interaction_law(InteractionLawType::ImpulseCollision),
        &mut rng(),
    )
    .unwrap();
    s.particles[0].position = v(10_000, 50_000);
    s.particles[1].position = v(80_000, 50_000);
    // energies 12_500_000 and 500_000
    assert_eq!(s.average_kinetic_energy(), Some(6_500_000));
    assert_eq!(s.temperatures(), (12_500_000, 500_000));
}

#[test]
fn construction_places_particles_inside_the_box() {
    let vels: Vec<Vec2> = (0..200).map(|k| v(k * 100, -k * 50)).collect();
    let s = MainState::new(40_000, 30_000, true, &vels, build_interaction_law(InteractionLawType::CoulombLaw), &mut rng()).unwrap();
    assert_eq!(s.particles.len(), 200);
    assert!(s.container.demon_looking);
    assert!(!s.paused);
    assert_eq!(s.substeps, 20);
    let mut distinct = false;
    for (k, p) in s.particles.iter().enumerate() {
        assert!(p.position.x >= PARTICLE_RADIUS && p.position.x < 40_000 - PARTICLE_RADIUS);
        assert!(p.position.y >= PARTICLE_RADIUS && p.position.y < 30_000 - PARTICLE_RADIUS);
        assert_eq!(p.velocity, vels[k]);
        assert_eq!(p.force, v(0, 0));
        if p.position != s.particles[0].position {
            distinct = true;
        }
    }
    assert!(distinct);
}

#[test]
fn construction_errors() {
    let law = build_interaction_law(InteractionLawType::ImpulseCollision);
    assert_eq!(MainState::new(0, 100_000, false, &vec![], law, &mut rng()).err(), Some(ConfigError::BadWalls));
    assert_eq!(
        MainState::new(8000, 100_000, false, &vec![], law, &mut rng()).err(),
        Some(ConfigError::ContainerTooSmall)
    );
    assert_eq!(
        MainState::new(100_000, 100_000, false, &vec![v(2_000_000_000_000, 0)], law, &mut rng()).err(),
        Some(ConfigError::OutOfRange)
    );
    let bad = InteractionLaw::Coulomb(CoulombLaw::new(1, -1, 10));
    assert_eq!(
        MainState::new(100_000, 100_000, false, &vec![], bad, &mut rng()).err(),
        Some(ConfigError::BadLaw)
    );
    assert_eq!(Particle::with_state(v(0, 0), v(0, 0), 0).err(), Some(ConfigError::BadRadius));
    assert_eq!(ParticleContainer::new(10, 0, 5, 3).err(), Some(ConfigError::BadWalls));
}

#[test]
fn integration_applies_gravity_then_moves() {
    let mut p = particle(0, 0, 0, 0, 5000);
    p.update(1_000_000);
    assert_eq!(p.velocity, v(0, 9810));
    assert_eq!(p.position, v(0, 9810));

    let mut q = particle(0, 0, 2000, 0, 5000);
    q.force = v(1000, -9810);
    q.update(500_000);
    assert_eq!(q.velocity, v(2500, 0));
    assert_eq!(q.position, v(1250, 0));
}

#[test]
fn one_step_resolves_a_collision_and_integrates() {
    let mut s = MainState::new(
        100_000,
        100_000,
        false,
        &vec![v(5000, 0), v(-5000, 0)],
        build_interaction_law(InteractionLawType::ImpulseCollision),
        &mut rng(),
    )
    .unwrap();
    s.particles[0].position = v(40_000, 50_000);
    s.particles[1].position = v(48_000, 50_000);
    s.compute_single_interaction(0);
    assert_eq!(s.particles[0].velocity, v(-5000, 0));
    assert_eq!(s.particles[1].velocity, v(5000, 0));
    assert_eq!(s.particles[0].position, v(39_000, 50_000));
    assert_eq!(s.particles[1].position, v(49_000, 50_000));
}

#[test]
fn pass_resolves_each_pair_once() {
    // Three charges on a line, one unit apart: pairs (0,1) and (1,2) each give 13_685_979,
    // pair (0,2) gives 3_421_498; a pair counted twice would double its share.
    let law = build_interaction_law(InteractionLawType::CoulombLaw);
    let mut ps = vec![
        particle(0, 0, 0, 0, 5000),
        particle(1000, 0, 0, 0, 5000),
        particle(2000, 0, 0, 0, 5000),
    ];
    interact_all(&law, &mut ps);
    let total_x: i64 = ps.iter().map(|p| p.force.x).sum();
    assert_eq!(total_x, 0);
    assert_eq!(ps[0].force.x, -17_107_477);
    assert_eq!(ps[1].force.x, 0);
    assert_eq!(ps[2].force.x, 17_107_477);
}

#[test]
fn long_step_is_integrated_in_full() {
    // Ten seconds at rest: v = 98_100, y = 981_000 (no cut of the step).
    let mut p = particle(0, 0, 0, 0, 5000);
    p.update(10_000_000);
    assert_eq!(p.velocity, v(0, 98_100));
    assert_eq!(p.position, v(0, 981_000));
}

#[test]
fn many_particles_are_accepted() {
    let vels = vec![v(1000, 0); 1_100_000];
    let s = MainState::new(100_000, 100_000, false, &vels, build_interaction_law(InteractionLawType::CoulombLaw), &mut rng()).unwrap();
    assert_eq!(s.particles.len(), 1_100_000);
    assert_eq!(s.average_kinetic_energy(), Some(500_000));
}

#[test]
fn configured_substeps_split_the_frame() {
    let mut s = MainState::new(100_000, 100_000, false, &vec![v(0, 0)], build_interaction_law(InteractionLawType::ImpulseCollision), &mut rng())
        .unwrap();
    s.particles[0].position = v(50_000, 20_000);
    s.substeps = 3;
    s.update_state(3_000_000);
    // three steps of one second each: v = 3 * 9810
    assert_eq!(s.particles[0].velocity.y, 29_430);
}

#[test]
fn update_state_runs_substeps_and_pause_flips() {
    let mut s = MainState::new(
        100_000,
        100_000,
        false,
        &vec![v(0, 0)],
        build_interaction_law(InteractionLawType::ImpulseCollision),
        &mut rng(),
    )
    .unwrap();
    s.particles[0].position = v(50_000, 20_000);
    s.update_state(20_000);
    // 20 steps of 1000 ticks: v = 20 * 9 (rounded toward zero each step)
    assert_eq!(s.particles[0].velocity.y, 180);
    s.pause_play();
    assert!(s.paused);
    s.pause_play();
    assert!(!s.paused);
}

#[test]
fn default_laws() {
    assert_eq!(
        build_interaction_law(InteractionLawType::CoulombLaw),
        InteractionLaw::Coulomb(CoulombLaw::new(13_686_000_000_000, 1, 2_000_000))
    );
    assert_eq!(
        build_interaction_law(InteractionLawType::ImpulseCollision),
        InteractionLaw::Impulse(ImpulseCollision::new(1000, 800, 10))
    );
}

#[test]
fn integer_square_root() {
    assert_eq!(isqrt(0), 0);
    assert_eq!(isqrt(64), 8);
    assert_eq!(isqrt(99), 9);
    assert_eq!(isqrt(100), 10);
    assert_eq!(isqrt(9_000_000_000_000_000_000_000_000), 3_000_000_000_000);
}

#[test]
fn coulomb_close_diagonal_pair_keeps_the_cap() {
    let law = CoulombLaw::new(1_000_000_000_000, 1, 2_000_000);
    let mut a = particle(0, 0, 0, 0, 5000);
    let mut b = particle(1, 1, 0, 0, 5000);
    assert!(law.resolve(&mut a, &mut b));
    // k / floor * (1 / sqrt 3) per axis: 2_000_000 / 1.732 = 1_154_700
    assert_eq!(b.force, v(1_154_700, 1_154_700));
    assert_eq!(a.force, v(-1_154_700, -1_154_700));
    let magnitude = ((b.force.x as f64).powi(2) + (b.force.y as f64).powi(2)).sqrt();
    assert!(magnitude <= 2_000_000.0);
}

#[test]
fn impulse_close_diagonal_pair_ends_touching() {
    let law = ImpulseCollision::new(1000, 800, 10);
    let mut a = particle(0, 0, 1000, 1000, 5000);
    let mut b = particle(1, 1, 0, 0, 5000);
    assert!(law.resolve(&mut a, &mut b));
    assert_eq!(a.position, v(-3535, -3535));
    assert_eq!(b.position, v(3536, 3536));
    assert_eq!(a.velocity, v(0, 0));
    assert_eq!(b.velocity, v(1000, 1000));
    let dx = (b.position.x - a.position.x) as f64;
    let dy = (b.position.y - a.position.y) as f64;
    assert!(((dx * dx + dy * dy).sqrt() - 10_000.0).abs() < 3.0);
}

#[test]
fn same_seed_gives_same_placement() {
    let law = build_interaction_law(InteractionLawType::ImpulseCollision);
    let vels = vec![v(0, 0); 50];
    let first = MainState::new(100_000, 80_000, false, &vels, law, &mut rng()).unwrap();
    let second = MainState::new(100_000, 80_000, false, &vels, law, &mut rng()).unwrap();
    assert_eq!(first.particles, second.particles);
}
