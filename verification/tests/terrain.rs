use grid_terrain::examples::{
    perlin_from_noise, perlin_plane, steps, table_top, wave, PerlinError, MAX_NOISE_SEED,
    MAX_NOISE_SUBDIVISIONS, WAVE_SUBDIVISIONS,
};
use grid_terrain::function::{Axis, Sample, Term};
use grid_terrain::mirror::Mirror;
use grid_terrain::perlin::Perlin;
use grid_terrain::rotate::Rotate;
use grid_terrain::{GridElement, Vector, ONE};
use noise::utils::{NoiseMapBuilder, PlaneMapBuilder};
use noise::Fbm;

fn step_of(tile: &GridElement) -> (i32, i32, Mirror, Rotate) {
    match tile {
        GridElement::Step(s) => (s.size, s.height, s.mirror, s.rotate),
        other => panic!("not a step: {other:?}"),
    }
}

fn slope_of(tile: &GridElement) -> (i32, i32, Mirror, Rotate) {
    match tile {
        GridElement::StepSlope(s) => (s.size, s.height, s.mirror, s.rotate),
        other => panic!("not a ramp: {other:?}"),
    }
}

fn perlin_of(grid: &[Vec<GridElement>]) -> &Perlin {
    assert_eq!(grid.len(), 1);
    assert_eq!(grid[0].len(), 1);
    match &grid[0][0] {
        GridElement::Perlin(tile) => tile,
        other => panic!("not a noise tile: {other:?}"),
    }
}

#[test]
fn table_top_lays_two_rows_of_three() {
    let grid = table_top(10 * ONE, 2 * ONE);
    assert_eq!(grid.len(), 2);
    assert!(grid.iter().all(|row| row.len() == 3));
    let s = 10 * ONE;
    let h = 2 * ONE;
    assert_eq!(slope_of(&grid[0][0]), (s, h, Mirror::Neither, Rotate::Ninety));
    assert_eq!(step_of(&grid[0][1]), (s, h, Mirror::Neither, Rotate::Ninety));
    assert_eq!(slope_of(&grid[0][2]), (s, h, Mirror::YZ, Rotate::TwoSeventy));
    assert_eq!(slope_of(&grid[1][0]), (s, h, Mirror::YZ, Rotate::Ninety));
    assert_eq!(step_of(&grid[1][1]), (s, h, Mirror::Neither, Rotate::TwoSeventy));
    assert_eq!(slope_of(&grid[1][2]), (s, h, Mirror::Neither, Rotate::TwoSeventy));
    assert!(grid.iter().flatten().all(|tile| tile.is_well_formed()));
}

#[test]
fn table_top_without_a_footprint_is_not_well_formed() {
    let grid = table_top(0, 5);
    assert_eq!(grid.len(), 2);
    assert!(grid.iter().flatten().all(|tile| !tile.is_well_formed()));
}

#[test]
fn steps_lays_one_row_for_each_height() {
    let grid = steps(10 * ONE, vec![ONE, 2 * ONE, 3 * ONE]);
    assert_eq!(grid.len(), 3);
    for (row, height) in grid.iter().zip([ONE, 2 * ONE, 3 * ONE]) {
        assert_eq!(row.len(), 3);
        assert_eq!(step_of(&row[0]), (10 * ONE, height, Mirror::Neither, Rotate::Zero));
        assert_eq!(step_of(&row[1]), (10 * ONE, height, Mirror::Neither, Rotate::OneEighty));
        match &row[2] {
            GridElement::Plane(p) => {
                assert_eq!(p.size, [10 * ONE, 10 * ONE]);
                assert_eq!(p.subdivisions, 1);
            }
            other => panic!("not a landing: {other:?}"),
        }
        assert!(row.iter().all(|tile| tile.is_well_formed()));
    }
}

#[test]
fn steps_collide_at_their_heights() {
    let grid = steps(10 * ONE, vec![ONE, 2 * ONE, 3 * ONE]);
    let point = Vector::new(ONE, ONE, ONE + 1);
    let none = Vec::new();
    assert_eq!(grid[0][0].interference(point, &none), None);
    assert_eq!(grid[1][0].interference(point, &none).unwrap().magnitude, (ONE - 1) as i64);
    assert_eq!(grid[2][1].interference(point, &none).unwrap().magnitude, (2 * ONE - 1) as i64);
    assert_eq!(grid[2][2].interference(point, &none), None);
    assert_eq!(grid[2][2].interference(Vector::new(ONE, ONE, -1), &none).unwrap().magnitude, 1);
}

#[test]
fn steps_without_heights_is_empty() {
    assert!(steps(10, vec![]).is_empty());
}

fn terms_of(tile: &GridElement) -> Vec<Term> {
    match tile {
        GridElement::Function(f) => {
            assert_eq!(f.size[0], f.size[1]);
            assert_eq!(f.subdivisions, WAVE_SUBDIVISIONS);
            assert!(!f.gradient_normal);
            f.functions.clone()
        }
        other => panic!("not a wave tile: {other:?}"),
    }
}

#[test]
fn wave_lays_three_rows_of_three() {
    let grid = wave(1000, 400, 200);
    assert_eq!(grid.len(), 3);
    assert!(grid.iter().all(|row| row.len() == 3));
    let z = Term::Wave { amplitude: 400, wave_length: 200 };
    let x_start = Term::Ramp { axis: Axis::X, from: 0, to: ONE };
    let x_end = Term::Ramp { axis: Axis::X, from: ONE, to: 0 };
    let y_start = Term::Ramp { axis: Axis::Y, from: 0, to: ONE };
    let y_end = Term::Ramp { axis: Axis::Y, from: ONE, to: 0 };
    assert_eq!(terms_of(&grid[0][0]), vec![z, x_start, y_start]);
    assert_eq!(terms_of(&grid[0][1]), vec![z, y_start]);
    assert_eq!(terms_of(&grid[0][2]), vec![z, x_end, y_start]);
    assert_eq!(terms_of(&grid[1][0]), vec![z, x_start]);
    assert_eq!(terms_of(&grid[1][1]), vec![z]);
    assert_eq!(terms_of(&grid[1][2]), vec![z, x_end]);
    assert_eq!(terms_of(&grid[2][0]), vec![z, x_start, y_end]);
    assert_eq!(terms_of(&grid[2][1]), vec![z, y_end]);
    assert_eq!(terms_of(&grid[2][2]), vec![z, x_end, y_end]);
    for tile in grid.iter().flatten() {
        match tile {
            GridElement::Function(f) => assert_eq!(f.size, [1000, 1000]),
            other => panic!("not a wave tile: {other:?}"),
        }
    }
    assert!(grid.iter().flatten().all(|tile| tile.is_well_formed()));
}

/// One sample for each term of `tile` at `x`, with the cosine of a wave.
fn samples_at(tile: &GridElement, x: i32) -> Vec<Sample> {
    terms_of(tile)
        .iter()
        .map(|term| match term {
            Term::Wave { amplitude, wave_length } => {
                let rate = std::f64::consts::TAU / *wave_length as f64;
                let phase = rate * x as f64;
                Sample {
                    value: (*amplitude as f64 * phase.cos()).round() as i32,
                    slope_x: (-(*amplitude as f64) * rate * phase.sin() * 65536.0).round() as i64,
                    slope_y: 0,
                }
            }
            Term::Ramp { .. } => Sample { value: 0, slope_x: 0, slope_y: 0 },
        })
        .collect()
}

#[test]
fn wave_tiles_collide_with_the_summed_surface() {
    let grid = wave(1000, 400, 200);
    // the middle tile holds the wave alone: a crest at x = 200
    let samples = samples_at(&grid[1][1], 200);
    assert!(grid[1][1].accepts_samples(&samples));
    let hit = grid[1][1].interference(Vector::new(200, 500, 0), &samples).unwrap();
    assert_eq!(hit.position.z, 400);
    // the first tile adds both ramps, half a unit each in the middle, to a trough at x = 500
    let samples = samples_at(&grid[0][0], 500);
    assert!(grid[0][0].accepts_samples(&samples));
    let hit = grid[0][0].interference(Vector::new(500, 500, 0), &samples).unwrap();
    assert_eq!(hit.position.z, -400 + ONE / 2 + ONE / 2);
    assert_eq!(WAVE_SUBDIVISIONS, 8);
}

#[test]
fn wave_tiles_follow_the_cosine() {
    // a wave of one world unit, six long, a sixth of the way along: cos(pi / 3) = 0.5
    let grid = wave(6 * ONE, ONE, 6 * ONE);
    let tile = &grid[1][1];
    let samples = samples_at(tile, ONE);
    assert_eq!(samples[0].value, ONE / 2);
    // a point at height 0.52 lies above the wave, one at 0.48 below it
    assert_eq!(tile.interference(Vector::new(ONE, 0, 34079), &samples), None);
    let hit = tile.interference(Vector::new(ONE, 0, 31457), &samples).unwrap();
    assert_eq!(hit.position, Vector { x: ONE, y: 0, z: ONE / 2 });
    assert_eq!(hit.magnitude, (ONE / 2 - 31457) as i64);
}

#[test]
fn wave_tiles_draw_the_summed_surface() {
    let grid = wave(800, 400, 200);
    let tile = &grid[1][1];
    let lines = grid_terrain::mesh::grid_lines(800, WAVE_SUBDIVISIONS);
    let table: Vec<Vec<Vec<Sample>>> =
        lines.iter().map(|x| lines.iter().map(|_| samples_at(tile, *x)).collect()).collect();
    assert!(tile.accepts_table(&table));
    let mesh = tile.mesh(&table);
    assert_eq!(mesh.positions.len(), 100);
    assert_eq!(mesh.indices.len(), 486);
    // grid lines 0, 88, 177, 266, ...: a crest at 0 and at 800
    assert_eq!(mesh.positions[0], Vector { x: 0, y: 0, z: 400 });
    assert_eq!(mesh.positions[99], Vector { x: 800, y: 800, z: 400 });
    for (k, p) in mesh.positions.iter().enumerate() {
        assert_eq!(p.z, table[k / 10][k % 10][0].value, "vertex {k}");
    }
}

#[test]
fn wave_well_formedness_has_exact_limits() {
    assert!(wave(1, 0x7ffd_ffff, 1).iter().flatten().all(|tile| tile.is_well_formed()));
    assert!(wave(1, -0x7ffd_ffff, 1).iter().flatten().all(|tile| tile.is_well_formed()));
    assert!(wave(1, 5, -1).iter().flatten().all(|tile| tile.is_well_formed()));
    assert!(!wave(1, 0x7ffe_0000, 1)[0][0].is_well_formed());
    assert!(wave(1, 0x7ffe_0000, 1)[1][1].is_well_formed());
    assert!(wave(1, 5, 0).iter().flatten().all(|tile| !tile.is_well_formed()));
    assert!(wave(0, 5, 1).iter().flatten().all(|tile| !tile.is_well_formed()));
}

#[test]
fn perlin_plane_is_one_noise_tile() {
    let grid = perlin_plane(10 * ONE, 6, 2348961).unwrap();
    let tile = perlin_of(&grid);
    assert!(tile.is_well_formed());
    assert_eq!(tile.size, [10 * ONE, 10 * ONE]);
    assert_eq!(tile.subdivisions, 6);
    // the sample lines run from one border of the tile to the other
    let lines: Vec<i32> = (0..8).map(|i| i * 10 * ONE / 7).collect();
    assert_eq!(tile.heightmap.x, lines);
    assert_eq!(tile.heightmap.y, lines);
    assert_eq!(tile.heightmap.x[0], 0);
    assert_eq!(tile.heightmap.x[7], 10 * ONE);
    assert_eq!(tile.heightmap.z.len(), 8);
    assert!(tile.heightmap.z.iter().all(|row| row.len() == 8));
}

#[test]
fn perlin_plane_heights_are_the_noise_of_the_seed() {
    let size = 10 * ONE;
    let grid = perlin_plane(size, 6, 2348961).unwrap();
    let tile = perlin_of(&grid);
    let fbm = Fbm::<noise::Perlin>::new(2348961);
    let map = PlaneMapBuilder::<_, 2>::new(&fbm)
        .set_size(8, 8)
        .set_x_bounds(-1.0, 1.0)
        .set_y_bounds(-1.0, 1.0)
        .build();
    let mut distinct = std::collections::BTreeSet::new();
    for x in 0..8 {
        for y in 0..8 {
            let expected = map.get_value(x, y) * (size as f64) * 0.05;
            let got = tile.heightmap.z[x][y];
            assert!((got as f64 - expected).abs() <= 1.0, "({x}, {y}): {got} for {expected}");
            assert!(got as f64 <= expected + 1e-6, "({x}, {y}): {got} above {expected}");
            distinct.insert(got);
        }
    }
    assert!(distinct.len() > 16, "{distinct:?}");
}

#[test]
fn perlin_plane_is_determined_by_its_arguments() {
    let first = perlin_plane(10 * ONE, 9, 77).unwrap();
    let second = perlin_plane(10 * ONE, 9, 77).unwrap();
    let a = perlin_of(&first);
    let b = perlin_of(&second);
    assert_eq!(a.heightmap.x, b.heightmap.x);
    assert_eq!(a.heightmap.y, b.heightmap.y);
    assert_eq!(a.heightmap.z, b.heightmap.z);
    let mesh_a = a.mesh();
    let mesh_b = b.mesh();
    assert_eq!(mesh_a.positions, mesh_b.positions);
    assert_eq!(mesh_a.normals, mesh_b.normals);
    assert_eq!(mesh_a.uvs, mesh_b.uvs);
    assert_eq!(mesh_a.indices, mesh_b.indices);
    assert_eq!(mesh_a.positions.len(), 121);
    assert_eq!(mesh_a.indices.len(), 600);
}

#[test]
fn perlin_plane_depends_on_the_seed() {
    let first = perlin_plane(10 * ONE, 9, 77).unwrap();
    let second = perlin_plane(10 * ONE, 9, 78).unwrap();
    assert_ne!(perlin_of(&first).heightmap.z, perlin_of(&second).heightmap.z);
    assert_eq!(perlin_of(&first).heightmap.x, perlin_of(&second).heightmap.x);
}

#[test]
fn perlin_plane_collides_with_its_mesh() {
    let grid = perlin_plane(4 * ONE, 2, 5).unwrap();
    let none = Vec::new();
    let mesh = grid[0][0].mesh(&Vec::new());
    assert_eq!(mesh.positions.len(), 16);
    assert_eq!(mesh.indices.len(), 54);
    for p in mesh.positions.iter() {
        let below = Vector { x: p.x, y: p.y, z: p.z - 3 };
        assert_eq!(grid[0][0].interference(below, &none).unwrap().magnitude, 3);
    }
    // the tile has ground from border to border, and none beyond
    for (x, y) in [(0, 0), (4 * ONE, 0), (0, 4 * ONE), (4 * ONE, 4 * ONE), (ONE, 3 * ONE)] {
        assert!(grid[0][0].interference(Vector::new(x, y, i32::MIN), &none).is_some());
    }
    assert_eq!(grid[0][0].interference(Vector::new(4 * ONE + 1, 0, i32::MIN), &none), None);
    assert_eq!(grid[0][0].interference(Vector::new(0, -1, i32::MIN), &none), None);
}

#[test]
fn perlin_plane_refuses_too_many_subdivisions() {
    assert_eq!(
        perlin_plane(i32::MAX, MAX_NOISE_SUBDIVISIONS + 1, 0).err(),
        Some(PerlinError::TooManySubdivisions)
    );
    assert_eq!(perlin_plane(0, u32::MAX, u32::MAX).err(), Some(PerlinError::TooManySubdivisions));
}

#[test]
fn perlin_plane_refuses_a_side_shorter_than_its_samples() {
    assert_eq!(perlin_plane(6, 6, 0).err(), Some(PerlinError::SizeTooSmall));
    assert_eq!(perlin_plane(0, 0, 0).err(), Some(PerlinError::SizeTooSmall));
    assert_eq!(perlin_plane(-5, 0, u32::MAX).err(), Some(PerlinError::SizeTooSmall));
    assert_eq!(perlin_plane(7, 6, 0).unwrap().len(), 1);
    assert_eq!(perlin_plane(1, 0, 0).unwrap().len(), 1);
}

#[test]
fn perlin_plane_refuses_a_seed_that_the_generator_cannot_step_from() {
    assert_eq!(perlin_plane(100, 1, MAX_NOISE_SEED + 1).err(), Some(PerlinError::SeedTooLarge));
    assert_eq!(perlin_plane(100, 1, u32::MAX).err(), Some(PerlinError::SeedTooLarge));
    assert!(perlin_plane(100, 1, MAX_NOISE_SEED).is_ok());
}

#[test]
fn perlin_from_noise_scales_each_value() {
    let bits: Vec<u64> =
        [0.0f64, 1.0, -1.0, 0.5, -0.5, 0.25, 2.0, -0.3, 0.7].iter().map(|v| v.to_bits()).collect();
    let tile = perlin_from_noise(600, 1, &bits).unwrap();
    assert_eq!(tile.heightmap.x, vec![0, 300, 600]);
    assert_eq!(tile.heightmap.y, vec![0, 300, 600]);
    // entry i + 3 * j belongs to the sample (i, j); a value of one raises by 30
    assert_eq!(tile.heightmap.z, vec![vec![0, 15, 60], vec![30, -15, -9], vec![-30, 7, 20]]);
    assert!(tile.is_well_formed());
}

#[test]
fn perlin_from_noise_refuses_the_wrong_number_of_values() {
    let bits: Vec<u64> = vec![0; 8];
    assert_eq!(perlin_from_noise(600, 1, &bits).err(), Some(PerlinError::WrongSampleCount));
    assert_eq!(perlin_from_noise(600, 1, &Vec::new()).err(), Some(PerlinError::WrongSampleCount));
    assert_eq!(perlin_from_noise(1, 1, &bits).err(), Some(PerlinError::SizeTooSmall));
    assert_eq!(
        perlin_from_noise(600, 40000, &bits).err(),
        Some(PerlinError::TooManySubdivisions)
    );
}

#[test]
fn perlin_from_noise_refuses_values_that_give_no_height() {
    let mut bits: Vec<u64> = vec![0; 4];
    bits[3] = f64::NAN.to_bits();
    assert_eq!(perlin_from_noise(600, 0, &bits).err(), Some(PerlinError::SampleOutOfRange));
    bits[3] = f64::INFINITY.to_bits();
    assert_eq!(perlin_from_noise(600, 0, &bits).err(), Some(PerlinError::SampleOutOfRange));
    bits[3] = 1e9f64.to_bits();
    assert_eq!(perlin_from_noise(600, 0, &bits).err(), Some(PerlinError::SampleOutOfRange));
    bits[3] = 1e7f64.to_bits();
    assert_eq!(perlin_from_noise(600, 0, &bits).unwrap().heightmap.z[1][1], 300_000_000);
}

#[test]
fn perlin_plane_heights_stay_within_a_tenth_of_the_size() {
    for seed in [0, 1, 2348961, MAX_NOISE_SEED] {
        let grid = perlin_plane(1000, 20, seed).unwrap();
        let tile = perlin_of(&grid);
        assert!(tile.heightmap.z.iter().flatten().all(|z| (-100..=100).contains(z)));
    }
}
