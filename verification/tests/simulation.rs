use fluid_sim::fluid_simulation::{
    compute_density_pass, FluidSimulation, FluidSimulationConfig,
};
use fluid_sim::radix_sort::sort_pairs;
use fluid_sim::spatial_lookup::{build_cell_index, fill_spatial_lookup, GridDims, Pos};

fn small_config() -> FluidSimulationConfig {
    FluidSimulationConfig {
        particle_cnt: 100,
        smoothing_radius: 100,
        mass: 10,
        damping: 32768,
        gas_const: 100,
        rest_density: 1000,
        viscosity: 50,
        gravity: Pos { x: 0, y: -100, z: 0 },
        bbox_dimensions: Pos { x: 200, y: 200, z: 200 },
        kernel_norm: 1_000_000_000,
        grad_norm: 100_000,
        lapl_norm: 10,
    }
}

#[test]
fn constructor_accepts_sound_config() {
    let sim = FluidSimulation::new(small_config()).expect("sound config refused");
    assert_eq!(sim.positions.len(), 100);
    assert_eq!(sim.velocities.len(), 100);
    assert_eq!(sim.densities.len(), 100);
    // two boundary layers of a 4 x 4 floor lattice at spacing 0.55 * h = 55
    assert_eq!(sim.ghost_particle_cnt, 32);
    assert_eq!((sim.positions[0].x, sim.positions[0].y, sim.positions[0].z), (0, 0, 0));
    assert_eq!((sim.positions[1].x, sim.positions[1].y, sim.positions[1].z), (0, 0, 55));
    assert_eq!((sim.positions[4].x, sim.positions[4].y, sim.positions[4].z), (55, 0, 0));
    assert_eq!((sim.positions[15].x, sim.positions[15].y, sim.positions[15].z), (165, 0, 165));
    assert_eq!((sim.positions[16].x, sim.positions[16].y, sim.positions[16].z), (0, 55, 0));
    for v in &sim.velocities {
        assert_eq!((v.x, v.y, v.z), (0, 0, 0));
    }
    for d in &sim.densities {
        assert_eq!(*d, 1000);
    }
    for f in &sim.forces {
        assert_eq!((f.x, f.y, f.z), (0, 0, 0));
    }
    // the fluid slots sit within h/12 = 8 of a centered lattice: with a
    // cube edge of 5 covering 68 fluid particles, spacing 55 spans 220,
    // wider than the box, so the lattice starts at the wall
    let h_over_12 = 8;
    for (u, p) in sim.positions[32..].iter().enumerate() {
        let gj = ((u / 5) % 5) as i64;
        let gi = (u / 25) as i64;
        let gk = (u % 5) as i64;
        let clamp = |v: i64| v.max(0).min(200);
        assert!((p.x - clamp(gj * 55)).abs() <= h_over_12);
        assert!((p.y - clamp(gi * 55)).abs() <= h_over_12);
        assert!((p.z - clamp(gk * 55)).abs() <= h_over_12);
    }
}

#[test]
fn constructor_rejects_unsound_configs() {
    let mut c = small_config();
    c.particle_cnt = 0;
    assert!(FluidSimulation::new(c).is_none());

    let mut c = small_config();
    c.smoothing_radius = 1;
    assert!(FluidSimulation::new(c).is_none());

    let mut c = small_config();
    c.bbox_dimensions.x = 50; // smaller than the smoothing radius
    assert!(FluidSimulation::new(c).is_none());

    let mut c = small_config();
    c.kernel_norm = 0;
    assert!(FluidSimulation::new(c).is_none());

    let mut c = small_config();
    c.particle_cnt = 32; // no room for fluid beside the boundary layers
    assert!(FluidSimulation::new(c).is_none());

    let mut c = small_config();
    c.rest_density = 0;
    assert!(FluidSimulation::new(c).is_none());
}

/// Boundary containment: after many integration steps from a valid state,
/// every particle stays inside the box on all three axes.
#[test]
fn boundary_containment_over_many_steps() {
    let config = small_config();
    let mut sim = FluidSimulation::new(config).unwrap();
    for _ in 0..40 {
        sim.update(655, false);
        for p in &sim.positions {
            assert!(0 <= p.x && p.x <= config.bbox_dimensions.x);
            assert!(0 <= p.y && p.y <= config.bbox_dimensions.y);
            assert!(0 <= p.z && p.z <= config.bbox_dimensions.z);
        }
    }
}

/// Pause idempotence: repeated paused frames change no position, velocity,
/// density or force.
#[test]
fn paused_update_changes_nothing() {
    let mut sim = FluidSimulation::new(small_config()).unwrap();
    sim.update(655, false);
    let positions = sim.positions.clone();
    let velocities = sim.velocities.clone();
    let densities = sim.densities.clone();
    let forces = sim.forces.clone();
    for _ in 0..5 {
        sim.update(655, true);
        assert_eq!(sim.positions, positions);
        assert_eq!(sim.velocities, velocities);
        assert_eq!(sim.densities, densities);
        assert_eq!(sim.forces, forces);
    }
}

/// Ghost particles are never integrated and keep the rest density.
#[test]
fn ghost_particles_stay_fixed() {
    let config = small_config();
    let mut sim = FluidSimulation::new(config).unwrap();
    let ghost_positions: Vec<Pos> = sim.positions[..sim.ghost_particle_cnt].to_vec();
    for _ in 0..10 {
        sim.update(655, false);
    }
    assert_eq!(&sim.positions[..sim.ghost_particle_cnt], &ghost_positions[..]);
    for j in 0..sim.ghost_particle_cnt {
        assert_eq!(sim.densities[j], config.rest_density);
        assert_eq!((sim.velocities[j].x, sim.velocities[j].y, sim.velocities[j].z), (0, 0, 0));
    }
}

/// An isolated particle's density is exactly its own kernel self-term:
/// mass * (h^2)^3 / kernel_norm.
#[test]
fn density_of_isolated_particle_is_self_term() {
    let config = FluidSimulationConfig {
        particle_cnt: 2,
        smoothing_radius: 4,
        mass: 1,
        damping: 0,
        gas_const: 0,
        rest_density: 1,
        viscosity: 0,
        gravity: Pos { x: 0, y: 0, z: 0 },
        bbox_dimensions: Pos { x: 100, y: 100, z: 100 },
        kernel_norm: 1,
        grad_norm: 1,
        lapl_norm: 1,
    };
    // one ghost particle at the origin, one fluid particle far away
    let positions = vec![Pos { x: 0, y: 0, z: 0 }, Pos { x: 90, y: 90, z: 90 }];
    let dims = GridDims { x: 25, y: 25, z: 25 };
    let mut pairs = fill_spatial_lookup(&positions, 4, dims);
    sort_pairs(&mut pairs);
    let index = build_cell_index(&pairs, 25 * 25 * 25);
    let mut densities = vec![1i64, 1];
    compute_density_pass(&config, 1, &positions, &pairs, &index, &mut densities);
    assert_eq!(densities[0], 1); // the boundary slot keeps its value
    assert_eq!(densities[1], (16i64 * 16 * 16) / 1); // (h^2)^3 with mass 1
}

/// Display colors interpolate with density: rest density sits halfway up
/// the ramp.
#[test]
fn display_color_tracks_density() {
    let mut sim = FluidSimulation::new(small_config()).unwrap();
    sim.update(655, false);
    for (j, v) in sim.display.iter().enumerate() {
        let t = ((sim.densities[j] as i128) * 255 / (2 * 1000)).min(255) as i64;
        assert_eq!(v.red as i64, t);
        assert_eq!(v.blue as i64, 255 - t);
        assert_eq!(v.position.x, sim.positions[j].x);
    }
}
