use fluid_sim::radix_sort::{sort_pairs, KeyVal};
use fluid_sim::spatial_lookup::{
    brute_force_neighbors, build_cell_index, cell_key, cell_range, fill_spatial_lookup,
    neighbors_within, GridDims, Pos,
};
use rand::Rng;

#[test]
fn populating_spatial_lookup() {
    // one world unit is 1024 fixed-point units
    let smoothing_radius = 1024i64;
    let bbox = 3 * smoothing_radius;

    let mut positions = Vec::new();
    for i in 0..3i64 {
        for j in 0..3i64 {
            for k in 0..3i64 {
                positions.push(Pos {
                    x: i * smoothing_radius,
                    y: j * smoothing_radius,
                    z: k * smoothing_radius,
                });
            }
        }
    }

    let cell_cnt = GridDims {
        x: ((bbox + smoothing_radius - 1) / smoothing_radius) as u32,
        y: ((bbox + smoothing_radius - 1) / smoothing_radius) as u32,
        z: ((bbox + smoothing_radius - 1) / smoothing_radius) as u32,
    };

    let pairs = fill_spatial_lookup(&positions, smoothing_radius, cell_cnt);

    for i in 0..27 {
        if pairs[i].val != i as u32 {
            panic!("Vals are not correct")
        }
        if pairs[i].key != i as u32 {
            panic!("Keys are not correct")
        }
    }
}

#[test]
fn spatial_lookup() {
    // one world unit is 20480 fixed-point units, so a 0.05 radius is 1024
    let particle_cnt = 10;
    let smoothing_radius = 1024i64;
    let bbox = 20480i64;
    let cell_cnt = GridDims {
        x: ((bbox + smoothing_radius - 1) / smoothing_radius) as u32,
        y: ((bbox + smoothing_radius - 1) / smoothing_radius) as u32,
        z: ((bbox + smoothing_radius - 1) / smoothing_radius) as u32,
    };

    let mut rng = rand::thread_rng();
    let mut positions = Vec::new();
    for _ in 0..particle_cnt {
        positions.push(Pos {
            x: rng.gen_range(0..bbox),
            y: rng.gen_range(0..bbox),
            z: rng.gen_range(0..bbox),
        });
    }

    let mut pairs = fill_spatial_lookup(&positions, smoothing_radius, cell_cnt);
    sort_pairs(&mut pairs);
    let total_cells = (cell_cnt.x * cell_cnt.y * cell_cnt.z) as usize;
    let index = build_cell_index(&pairs, total_cells);

    println!("{:?}", pairs);
    println!("{:?}", index);

    for i in 0..particle_cnt {
        let mut grid = neighbors_within(&positions, &pairs, &index, smoothing_radius, cell_cnt, i);
        let mut brute = brute_force_neighbors(&positions, smoothing_radius, i);
        grid.sort();
        brute.sort();
        assert_eq!(grid, brute);
    }
}

#[test]
fn cell_key_known_values() {
    let dims = GridDims { x: 3, y: 3, z: 3 };
    // a coordinate is divided by the cell edge and clamped to the grid
    let k = cell_key(Pos { x: 2500, y: 0, z: 1024 }, 1024, dims);
    assert_eq!(k, 2 * 9 + 0 * 3 + 1);
    // positions past the last cell fall into it
    let k2 = cell_key(Pos { x: 3072, y: 3072, z: 3072 }, 1024, dims);
    assert_eq!(k2, 26);
}

#[test]
fn cell_index_bounds_runs() {
    let pairs = vec![
        KeyVal { key: 0, val: 7 },
        KeyVal { key: 0, val: 3 },
        KeyVal { key: 1, val: 9 },
        KeyVal { key: 3, val: 4 },
    ];
    let index = build_cell_index(&pairs, 5);
    assert_eq!(index, vec![0, 2, 4, 3, 4]);

    assert_eq!(cell_range(&pairs, &index, 0), (0, 2));
    assert_eq!(cell_range(&pairs, &index, 1), (2, 3));
    assert_eq!(cell_range(&pairs, &index, 2), (4, 4));
    assert_eq!(cell_range(&pairs, &index, 3), (3, 4));
    assert_eq!(cell_range(&pairs, &index, 4), (4, 4));
}

/// On an exact lattice with spacing equal to the smoothing radius, the
/// grid search returns each particle itself plus its six face neighbors.
#[test]
fn lattice_neighbors_exact() {
    let h = 1024i64;
    let dims = GridDims { x: 3, y: 3, z: 3 };
    let mut positions = Vec::new();
    for i in 0..3i64 {
        for j in 0..3i64 {
            for k in 0..3i64 {
                positions.push(Pos { x: i * h, y: j * h, z: k * h });
            }
        }
    }
    let mut pairs = fill_spatial_lookup(&positions, h, dims);
    sort_pairs(&mut pairs);
    let index = build_cell_index(&pairs, 27);

    // the center particle: itself and the six at distance exactly h
    let mut nb = neighbors_within(&positions, &pairs, &index, h, dims, 13);
    nb.sort();
    assert_eq!(nb, vec![4, 10, 12, 13, 14, 16, 22]);

    // a corner particle: itself and three face neighbors
    let mut nb0 = neighbors_within(&positions, &pairs, &index, h, dims, 0);
    nb0.sort();
    assert_eq!(nb0, vec![0, 1, 3, 9]);
}

/// Two particles at identical positions share a cell and report each other.
#[test]
fn coincident_particles_are_mutual_neighbors() {
    let h = 1024i64;
    let dims = GridDims { x: 2, y: 2, z: 2 };
    let positions = vec![
        Pos { x: 500, y: 500, z: 500 },
        Pos { x: 500, y: 500, z: 500 },
        Pos { x: 1800, y: 1800, z: 1800 },
    ];
    let mut pairs = fill_spatial_lookup(&positions, h, dims);
    sort_pairs(&mut pairs);
    let index = build_cell_index(&pairs, 8);

    let mut nb = neighbors_within(&positions, &pairs, &index, h, dims, 0);
    nb.sort();
    assert_eq!(nb, vec![0, 1]);
}
