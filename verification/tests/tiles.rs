use grid_terrain::function::{Axis, Function, Sample, Term};
use grid_terrain::mirror::Mirror;
use grid_terrain::perlin::{HeightMap, Perlin};
use grid_terrain::plane::Plane;
use grid_terrain::rotate::Rotate;
use grid_terrain::step::Step;
use grid_terrain::step_slope::StepSlope;
use grid_terrain::{GridElement, Interference, Normal, Vector, ONE};

fn plane() -> Plane {
    Plane { size: [10 * ONE, 10 * ONE], subdivisions: 2 }
}

#[test]
fn plane_interference_below_the_ground() {
    let hit = plane().interference(Vector::new(0, 0, -ONE));
    assert_eq!(
        hit,
        Some(Interference {
            magnitude: ONE as i64,
            position: Vector { x: 0, y: 0, z: 0 },
            normal: Normal { x: 0, y: 0, z: 65536 },
        })
    );
    assert_eq!(hit.unwrap().normal, Normal::up());
}

#[test]
fn plane_interference_above_the_ground_is_none() {
    assert_eq!(plane().interference(Vector::new(0, 0, ONE)), None);
}

#[test]
fn plane_interference_on_the_ground_is_none() {
    assert_eq!(plane().interference(Vector::new(3, 4, 0)), None);
}

#[test]
fn plane_interference_at_the_deepest_point() {
    let hit = plane().interference(Vector::new(7, -9, i32::MIN)).unwrap();
    assert_eq!(hit.magnitude, 2147483648);
    assert_eq!(hit.position, Vector { x: 7, y: -9, z: 0 });
}

#[test]
fn step_interference_below_its_height() {
    let step = Step { size: 10 * ONE, height: 2 * ONE, mirror: Mirror::Neither, rotate: Rotate::Zero };
    let hit = step.interference(Vector::new(0, 0, ONE)).unwrap();
    assert_eq!(hit.magnitude, ONE as i64);
    assert_eq!(hit.position, Vector { x: 0, y: 0, z: 2 * ONE });
    assert_eq!(hit.normal, Normal::up());
}

#[test]
fn step_interference_in_plain_units() {
    let step = Step { size: 10, height: 2, mirror: Mirror::Neither, rotate: Rotate::Zero };
    let hit = step.interference(Vector::new(0, 0, 1)).unwrap();
    assert_eq!(hit.magnitude, 1);
    assert_eq!(hit.position.z, 2);
    assert_eq!(step.interference(Vector::new(0, 0, 2)), None);
    assert_eq!(step.interference(Vector::new(0, 0, 3)), None);
}

#[test]
fn step_interference_spans_the_whole_range() {
    let step = Step { size: 1, height: i32::MAX, mirror: Mirror::Both, rotate: Rotate::Ninety };
    let hit = step.interference(Vector::new(0, 0, i32::MIN)).unwrap();
    assert_eq!(hit.magnitude, 4294967295);
}

fn slope(mirror: Mirror, rotate: Rotate) -> StepSlope {
    StepSlope { size: 100, height: 50, mirror, rotate }
}

#[test]
fn step_slope_rises_along_x() {
    let ramp = slope(Mirror::Neither, Rotate::Zero);
    assert_eq!(ramp.surface_at(0, 30), Some(0));
    assert_eq!(ramp.surface_at(50, 30), Some(25));
    assert_eq!(ramp.surface_at(100, 30), Some(50));
    assert_eq!(ramp.surface_at(51, 0), Some(25));
    assert_eq!(ramp.normal_of(), Normal { x: -50, y: 0, z: 100 });
}

#[test]
fn step_slope_turned_a_quarter_rises_along_y() {
    let ramp = slope(Mirror::Neither, Rotate::Ninety);
    assert_eq!(ramp.surface_at(30, 0), Some(0));
    assert_eq!(ramp.surface_at(30, 40), Some(20));
    assert_eq!(ramp.surface_at(30, 100), Some(50));
    assert_eq!(ramp.normal_of(), Normal { x: 0, y: -50, z: 100 });
}

#[test]
fn step_slope_turned_half_way_falls_along_x() {
    let ramp = slope(Mirror::Neither, Rotate::OneEighty);
    assert_eq!(ramp.surface_at(0, 30), Some(50));
    assert_eq!(ramp.surface_at(40, 30), Some(30));
    assert_eq!(ramp.surface_at(100, 30), Some(0));
    assert_eq!(ramp.normal_of(), Normal { x: 50, y: 0, z: 100 });
}

#[test]
fn step_slope_turned_three_quarters_falls_along_y() {
    let ramp = slope(Mirror::Neither, Rotate::TwoSeventy);
    assert_eq!(ramp.surface_at(30, 0), Some(50));
    assert_eq!(ramp.surface_at(30, 100), Some(0));
    assert_eq!(ramp.normal_of(), Normal { x: 0, y: 50, z: 100 });
}

#[test]
fn step_slope_mirrored_falls_along_x() {
    let ramp = slope(Mirror::YZ, Rotate::Zero);
    assert_eq!(ramp.surface_at(0, 30), Some(50));
    assert_eq!(ramp.surface_at(100, 30), Some(0));
    let other = slope(Mirror::XZ, Rotate::Zero);
    assert_eq!(other.surface_at(0, 30), Some(0));
    assert_eq!(other.surface_at(100, 30), Some(50));
    let both = slope(Mirror::Both, Rotate::Zero);
    assert_eq!(both.surface_at(0, 30), Some(50));
}

#[test]
fn step_slope_mirrored_and_turned() {
    // mirrored first: falls along x; then turned a quarter: falls along y
    let ramp = slope(Mirror::YZ, Rotate::Ninety);
    assert_eq!(ramp.surface_at(30, 0), Some(50));
    assert_eq!(ramp.surface_at(30, 100), Some(0));
    let back = slope(Mirror::YZ, Rotate::TwoSeventy);
    assert_eq!(back.surface_at(30, 0), Some(0));
    assert_eq!(back.surface_at(30, 100), Some(50));
}

#[test]
fn step_slope_rounds_down() {
    let ramp = StepSlope { size: 3, height: 1, mirror: Mirror::Neither, rotate: Rotate::Zero };
    assert_eq!(ramp.surface_at(2, 0), Some(0));
    assert_eq!(ramp.surface_at(3, 0), Some(1));
    let down = StepSlope { size: 3, height: -1, mirror: Mirror::Neither, rotate: Rotate::Zero };
    assert_eq!(down.surface_at(1, 0), Some(-1));
    assert_eq!(down.surface_at(0, 0), Some(0));
}

#[test]
fn step_slope_has_no_ground_off_the_tile() {
    let ramp = slope(Mirror::Neither, Rotate::Zero);
    assert_eq!(ramp.surface_at(-1, 0), None);
    assert_eq!(ramp.surface_at(101, 0), None);
    assert_eq!(ramp.surface_at(0, -1), None);
    assert_eq!(ramp.surface_at(0, 101), None);
    assert_eq!(ramp.interference(Vector::new(101, 0, -1000)), None);
}

#[test]
fn step_slope_interference_under_the_ramp() {
    let ramp = slope(Mirror::Neither, Rotate::Zero);
    let hit = ramp.interference(Vector::new(50, 10, 5)).unwrap();
    assert_eq!(hit.magnitude, 20);
    assert_eq!(hit.position, Vector { x: 50, y: 10, z: 25 });
    assert_eq!(hit.normal, Normal { x: -50, y: 0, z: 100 });
    assert_eq!(ramp.interference(Vector::new(50, 10, 25)), None);
}

#[test]
fn step_slope_survives_the_widest_ramp() {
    let ramp =
        StepSlope { size: i32::MAX, height: i32::MIN, mirror: Mirror::Both, rotate: Rotate::Ninety };
    assert_eq!(ramp.surface_at(0, 0), Some(i32::MIN));
    assert_eq!(ramp.surface_at(0, i32::MAX), Some(0));
}

#[test]
fn rotate_to_local_undoes_the_turn() {
    assert_eq!(Rotate::Zero.to_local(10, 3, 4), (3, 4));
    assert_eq!(Rotate::Ninety.to_local(10, 3, 4), (4, 7));
    assert_eq!(Rotate::OneEighty.to_local(10, 3, 4), (7, 6));
    assert_eq!(Rotate::TwoSeventy.to_local(10, 3, 4), (6, 3));
    // a quarter turn carries (4, 7) to (10 - 7, 4)
    assert_eq!(Rotate::Ninety.to_local(10, 10 - 7, 4), (4, 7));
}

#[test]
fn rotate_four_quarter_turns_bring_a_point_back() {
    let mut p = (3, 4);
    for _ in 0..4 {
        p = Rotate::Ninety.to_local(10, p.0, p.1);
    }
    assert_eq!(p, (3, 4));
    let q = Rotate::TwoSeventy.to_local(10, 3, 4);
    assert_eq!(Rotate::Ninety.to_local(10, q.0, q.1), (3, 4));
}

#[test]
fn mirror_to_local_flips_and_flips_back() {
    assert_eq!(Mirror::Neither.to_local(10, 3, 4), (3, 4));
    assert_eq!(Mirror::XZ.to_local(10, 3, 4), (3, 6));
    assert_eq!(Mirror::YZ.to_local(10, 3, 4), (7, 4));
    assert_eq!(Mirror::Both.to_local(10, 3, 4), (7, 6));
    for m in [Mirror::Neither, Mirror::XZ, Mirror::YZ, Mirror::Both] {
        let p = m.to_local(10, 3, 4);
        assert_eq!(m.to_local(10, p.0, p.1), (3, 4));
    }
}

#[test]
fn orientation_defaults() {
    assert_eq!(Mirror::default(), Mirror::Neither);
    assert_eq!(Rotate::default(), Rotate::Zero);
}

const NONE: Sample = Sample { value: 0, slope_x: 0, slope_y: 0 };

/// The value and slope of `amplitude * cos(2 * pi * x / wave_length)`.
fn cosine(amplitude: i32, wave_length: i32, x: i32) -> Sample {
    let rate = std::f64::consts::TAU / wave_length as f64;
    let phase = rate * x as f64;
    Sample {
        value: (amplitude as f64 * phase.cos()).round() as i32,
        slope_x: (-(amplitude as f64) * rate * phase.sin() * 65536.0).round() as i64,
        slope_y: 0,
    }
}

/// One sample for each term of `tile` at `x`.
fn samples_at(tile: &Function, x: i32) -> Vec<Sample> {
    tile.functions
        .iter()
        .map(|term| match term {
            Term::Wave { amplitude, wave_length } => cosine(*amplitude, *wave_length, x),
            Term::Ramp { .. } => NONE,
        })
        .collect()
}

fn wave_tile(gradient_normal: bool) -> Function {
    Function {
        size: [1000, 1000],
        functions: vec![
            Term::Wave { amplitude: 400, wave_length: 200 },
            Term::Ramp { axis: Axis::Y, from: 0, to: 100 },
        ],
        subdivisions: 3,
        gradient_normal,
    }
}

#[test]
fn wave_term_has_the_value_and_slope_of_its_sample() {
    let wave = Term::Wave { amplitude: 400, wave_length: 200 };
    let size = [1000, 1000];
    let sample = Sample { value: -123, slope_x: 45, slope_y: -6 };
    assert_eq!(wave.evaluate(size, 10, 20, sample), (-123, 45, -6));
    assert_eq!(wave.evaluate(size, 0, 0, cosine(400, 200, 0)), (400, 0, 0));
    assert_eq!(wave.evaluate(size, 100, 0, cosine(400, 200, 100)).0, -400);
    let widest = Sample { value: 400, slope_x: i64::MIN, slope_y: i64::MAX };
    assert_eq!(wave.evaluate(size, 0, 0, widest), (400, i64::MIN as i128, i64::MAX as i128));
}

#[test]
fn wave_term_accepts_values_within_its_amplitude() {
    let wave = Term::Wave { amplitude: -300, wave_length: 41 };
    assert_eq!(wave.bound_of(), 300);
    assert!(wave.accepts_sample(Sample { value: 300, slope_x: 0, slope_y: 0 }));
    assert!(wave.accepts_sample(Sample { value: -300, slope_x: i64::MAX, slope_y: 0 }));
    assert!(!wave.accepts_sample(Sample { value: 301, slope_x: 0, slope_y: 0 }));
    assert!(!wave.accepts_sample(Sample { value: -301, slope_x: 0, slope_y: 0 }));
    for x in 0..=100 {
        assert!(wave.accepts_sample(cosine(-300, 41, x)), "at {x}");
    }
    let deepest = Term::Wave { amplitude: i32::MIN, wave_length: 1 };
    assert!(deepest.accepts_sample(Sample { value: i32::MIN, slope_x: 0, slope_y: 0 }));
    assert!(deepest.accepts_sample(Sample { value: i32::MAX, slope_x: 0, slope_y: 0 }));
}

#[test]
fn ramp_term_runs_between_its_ends() {
    let size = [200, 50];
    let along_x = Term::Ramp { axis: Axis::X, from: 10, to: 110 };
    assert_eq!(along_x.evaluate(size, 0, 7, NONE), (10, 32768, 0));
    assert_eq!(along_x.evaluate(size, 100, 7, NONE), (60, 32768, 0));
    assert_eq!(along_x.evaluate(size, 200, 7, NONE), (110, 32768, 0));
    let along_y = Term::Ramp { axis: Axis::Y, from: 100, to: 0 };
    assert_eq!(along_y.evaluate(size, 7, 0, NONE), (100, 0, -2 * 65536));
    assert_eq!(along_y.evaluate(size, 7, 25, NONE), (50, 0, -2 * 65536));
    assert_eq!(along_y.evaluate(size, 7, 50, NONE), (0, 0, -2 * 65536));
    assert_eq!(along_y.bound_of(), 100);
}

#[test]
fn ramp_term_reads_nothing_from_its_sample() {
    let size = [200, 50];
    let ramp = Term::Ramp { axis: Axis::X, from: 10, to: 110 };
    let sample = Sample { value: i32::MAX, slope_x: i64::MIN, slope_y: i64::MAX };
    assert!(ramp.accepts_sample(sample));
    assert_eq!(ramp.evaluate(size, 100, 7, sample), (60, 32768, 0));
}

#[test]
fn function_sums_its_terms() {
    let tile = wave_tile(false);
    let wave = Sample { value: 300, slope_x: -8 * 65536, slope_y: 0 };
    // wave 300 as handed in, ramp 10 at y = 100
    assert_eq!(tile.evaluate(25, 100, &vec![wave, NONE]), (310, -8 * 65536, 6553));
    // crest at x = 0, trough at x = 100
    assert_eq!(tile.evaluate(0, 0, &samples_at(&tile, 0)), (400, 0, 6553));
    assert_eq!(tile.evaluate(100, 1000, &samples_at(&tile, 100)).0, -300);
}

#[test]
fn function_without_terms_is_level() {
    let tile = Function { size: [10, 10], functions: vec![], subdivisions: 0, gradient_normal: true };
    assert!(tile.is_well_formed());
    assert!(tile.accepts_samples(&vec![]));
    assert_eq!(tile.evaluate(5, 5, &vec![]), (0, 0, 0));
    assert_eq!(tile.surface_at(5, 5, &vec![]), Some((0, Normal::up())));
}

#[test]
fn function_accepts_one_sample_for_each_term() {
    let tile = wave_tile(false);
    assert!(tile.accepts_samples(&samples_at(&tile, 33)));
    assert!(!tile.accepts_samples(&vec![]));
    assert!(!tile.accepts_samples(&vec![NONE]));
    assert!(!tile.accepts_samples(&vec![NONE, NONE, NONE]));
    assert!(!tile.accepts_samples(&vec![Sample { value: 401, slope_x: 0, slope_y: 0 }, NONE]));
    assert!(tile.accepts_samples(&vec![NONE, Sample { value: 401, slope_x: 0, slope_y: 0 }]));
}

#[test]
fn function_interference_pushes_up_by_default() {
    let tile = wave_tile(false);
    let samples = vec![Sample { value: 300, slope_x: -8 * 65536, slope_y: 0 }, NONE];
    let hit = tile.interference(Vector::new(25, 100, 300), &samples).unwrap();
    assert_eq!(hit.magnitude, 10);
    assert_eq!(hit.position, Vector { x: 25, y: 100, z: 310 });
    assert_eq!(hit.normal, Normal::up());
    assert_eq!(tile.interference(Vector::new(25, 100, 310), &samples), None);
}

#[test]
fn function_interference_follows_the_slope_when_asked() {
    let tile = wave_tile(true);
    let samples = vec![Sample { value: 300, slope_x: -8 * 65536, slope_y: 0 }, NONE];
    let hit = tile.interference(Vector::new(25, 100, 300), &samples).unwrap();
    assert_eq!(hit.magnitude, 10);
    assert_eq!(hit.normal, Normal { x: 8 * 65536, y: -6553, z: 65536 });
}

#[test]
fn function_interference_with_a_cosine_wave() {
    // a wave of one world unit, six long, a sixth of the way along: cos(pi / 3) = 0.5
    let tile = Function {
        size: [6 * ONE, 6 * ONE],
        functions: vec![Term::Wave { amplitude: ONE, wave_length: 6 * ONE }],
        subdivisions: 8,
        gradient_normal: false,
    };
    let samples = samples_at(&tile, ONE);
    assert_eq!(samples[0].value, ONE / 2);
    let above = Vector::new(ONE, 0, 34079);
    assert_eq!(tile.interference(above, &samples), None);
    let below = Vector::new(ONE, 0, 31457);
    let hit = tile.interference(below, &samples).unwrap();
    assert_eq!(hit.magnitude, (ONE / 2 - 31457) as i64);
    assert_eq!(hit.position.z, ONE / 2);
}

#[test]
fn function_has_no_ground_off_the_tile() {
    let tile = wave_tile(false);
    let samples = samples_at(&tile, 0);
    assert_eq!(tile.surface_at(-1, 0, &samples), None);
    assert_eq!(tile.surface_at(0, 1001, &samples), None);
    assert_eq!(tile.interference(Vector::new(1001, 0, i32::MIN), &samples), None);
}

#[test]
fn function_well_formedness() {
    assert!(wave_tile(false).is_well_formed());
    let mut flat = wave_tile(false);
    flat.functions.push(Term::Wave { amplitude: 1, wave_length: 0 });
    assert!(!flat.is_well_formed());
    let mut back = wave_tile(false);
    back.functions.push(Term::Wave { amplitude: 1, wave_length: -5 });
    assert!(back.is_well_formed());
    let mut tall = wave_tile(false);
    tall.functions.push(Term::Ramp { axis: Axis::X, from: 0, to: i32::MAX });
    assert!(!tall.is_well_formed());
    let edge = Function {
        size: [1, 1],
        functions: vec![Term::Ramp { axis: Axis::X, from: 0, to: i32::MAX }],
        subdivisions: 0,
        gradient_normal: false,
    };
    assert!(edge.is_well_formed());
    let empty = Function { size: [0, 1], functions: vec![], subdivisions: 0, gradient_normal: false };
    assert!(!empty.is_well_formed());
}

fn perlin() -> Perlin {
    Perlin {
        size: [30, 30],
        subdivisions: 1,
        heightmap: HeightMap::new(
            vec![0, 10, 30],
            vec![0, 10, 20],
            vec![vec![0, 40, 0], vec![100, 60, 0], vec![-20, 80, 0]],
        )
        .unwrap(),
    }
}

#[test]
fn perlin_interference_under_the_surface() {
    let tile = perlin();
    assert!(tile.is_well_formed());
    let hit = tile.interference(Vector::new(5, 5, 10)).unwrap();
    assert_eq!(hit.magnitude, 40);
    assert_eq!(hit.position, Vector { x: 5, y: 5, z: 50 });
    assert_eq!(hit.normal, Normal::up());
    assert_eq!(tile.interference(Vector::new(5, 5, 50)), None);
    assert_eq!(tile.interference(Vector::new(5, 5, 51)), None);
}

#[test]
fn perlin_interference_outside_the_samples_is_none() {
    let tile = perlin();
    assert_eq!(tile.interference(Vector::new(-1, 5, i32::MIN)), None);
    assert_eq!(tile.interference(Vector::new(5, 21, i32::MIN)), None);
    assert_eq!(tile.interference(Vector::new(31, 5, i32::MIN)), None);
}

#[test]
fn perlin_well_formedness_ties_the_map_to_the_density() {
    let mut tile = perlin();
    tile.subdivisions = 2;
    assert!(!tile.is_well_formed());
}

#[test]
fn grid_element_dispatches_to_its_tile() {
    let point = Vector::new(25, 100, -500);
    let tiles = [
        GridElement::Plane(plane()),
        GridElement::Step(Step {
            size: 1000,
            height: 7,
            mirror: Mirror::Neither,
            rotate: Rotate::Zero,
        }),
        GridElement::StepSlope(StepSlope {
            size: 1000,
            height: 40,
            mirror: Mirror::Neither,
            rotate: Rotate::Zero,
        }),
        GridElement::Function(wave_tile(false)),
    ];
    let grounds = [0, 7, 1, 310];
    let samples = vec![Sample { value: 300, slope_x: 0, slope_y: 0 }, NONE];
    for (tile, ground) in tiles.iter().zip(grounds) {
        assert!(tile.is_well_formed());
        assert!(tile.accepts_samples(&samples));
        let hit = tile.interference(point, &samples).unwrap();
        assert_eq!(hit.position, Vector { x: 25, y: 100, z: ground });
        assert_eq!(hit.magnitude, (ground + 500) as i64);
    }
    let tile = GridElement::Perlin(perlin());
    assert!(tile.accepts_samples(&Vec::new()));
    assert_eq!(tile.interference(Vector::new(5, 5, 10), &Vec::new()).unwrap().magnitude, 40);
}
