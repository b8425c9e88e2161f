use moving_sofa::curves::Polynomial;
use moving_sofa::optimizer::{climb, explore, measure, SMALLEST_STEP, STEP_LIMIT};
use moving_sofa::scalar::ONE;
use moving_sofa::sofa::{Sofa, Trig};
use rand::rngs::StdRng;
use rand::SeedableRng;

const DX: i64 = 50_000_000;
const R_DX: i64 = 200_000_000;

fn to_scalar(v: f64) -> i64 {
    (v * 1e9) as i64
}

fn trig(theta: i64) -> Trig {
    let t = theta as f64 / 1e9;
    Trig { sin: to_scalar(t.sin()), cos: to_scalar(t.cos()), tan: to_scalar(t.tan()) }
}

fn close(value: i64, expected: i64, within: i64) -> bool {
    (value - expected).abs() <= within
}

#[test]
fn steps_lie_between_a_ten_thousandth_and_a_hundredth() {
    assert_eq!(SMALLEST_STEP, 100_000);
    assert_eq!(STEP_LIMIT, 10_000_000);
}

#[test]
fn measure_is_the_area_after_one_sweep() {
    let coefficients = vec![ONE, -ONE];
    let mut sofa = Sofa::new(Polynomial::new(coefficients.clone()), DX, &trig).unwrap();
    sofa.cutout(R_DX, &trig).unwrap();
    let measured = measure(&coefficients, DX, R_DX, &trig).unwrap();
    assert_eq!(measured, sofa.calculate_area());
    assert!(close(measured, 1_931_515_942, 2_000_000));
    assert!(close(
        measure(&coefficients, 20_000_000, 50_000_000, &trig).unwrap(),
        1_834_792_770,
        2_000_000
    ));
}

#[test]
fn explore_keeps_the_lowered_coefficient_where_its_area_is_larger() {
    let mut coefficients = vec![ONE, -ONE];
    let lowered = measure(&vec![995_000_000, -ONE], DX, R_DX, &trig).unwrap();
    let raised = measure(&vec![1_005_000_000, -ONE], DX, R_DX, &trig).unwrap();
    assert!(lowered > raised);
    assert_eq!(explore(&mut coefficients, 0, 5_000_000, DX, R_DX, &trig), Ok(lowered));
    assert_eq!(coefficients, vec![995_000_000, -ONE]);
    assert!(close(lowered, 2_143_089_604, 2_000_000));
}

#[test]
fn explore_keeps_the_raised_coefficient_where_its_area_is_larger() {
    let mut coefficients = vec![ONE / 2, -ONE];
    let lowered = measure(&vec![495_000_000, -ONE], DX, R_DX, &trig).unwrap();
    let raised = measure(&vec![505_000_000, -ONE], DX, R_DX, &trig).unwrap();
    assert!(raised > lowered);
    assert_eq!(explore(&mut coefficients, 0, 5_000_000, DX, R_DX, &trig), Ok(raised));
    assert_eq!(coefficients, vec![505_000_000, -ONE]);
    assert!(close(raised, 2_243_150_882, 2_000_000));
}

#[test]
fn explore_moves_only_the_coefficient_it_is_given() {
    let mut coefficients = vec![600_000_000, -900_000_000, 400_000_000];
    let area = explore(&mut coefficients, 1, 5_000_000, DX, R_DX, &trig).unwrap();
    assert_eq!(coefficients[0], 600_000_000);
    assert_eq!(coefficients[2], 400_000_000);
    assert!(coefficients[1] == -895_000_000 || coefficients[1] == -905_000_000);
    assert_eq!(measure(&coefficients, DX, R_DX, &trig), Ok(area));
}

#[test]
fn climb_moves_every_coefficient_by_a_step_in_range() {
    let start = vec![600_000_000, -900_000_000, 400_000_000, -100_000_000];
    let mut coefficients = start.clone();
    let mut rng = StdRng::seed_from_u64(11);
    let area = climb(&mut coefficients, DX, R_DX, &trig, &mut rng).unwrap();
    assert_eq!(coefficients.len(), start.len());
    for i in 0..start.len() {
        let moved = (coefficients[i] - start[i]).abs();
        assert!(SMALLEST_STEP <= moved && moved < STEP_LIMIT);
    }
    assert_eq!(measure(&coefficients, DX, R_DX, &trig), Ok(area));
}

#[test]
fn climb_draws_steps_that_differ() {
    let start = vec![600_000_000, -900_000_000, 400_000_000, -100_000_000, 0, 0, 0, 0];
    let mut coefficients = start.clone();
    let mut rng = StdRng::seed_from_u64(11);
    climb(&mut coefficients, DX, R_DX, &trig, &mut rng).unwrap();
    let mut steps: Vec<i64> =
        (0..start.len()).map(|i| (coefficients[i] - start[i]).abs()).collect();
    assert!(steps.iter().any(|s| *s != SMALLEST_STEP));
    steps.sort();
    steps.dedup();
    assert!(steps.len() > 1);
}

#[test]
fn climb_with_the_same_seed_takes_the_same_steps() {
    let start = vec![600_000_000, -900_000_000, 400_000_000];
    let mut first = start.clone();
    let mut second = start.clone();
    let area = climb(&mut first, DX, R_DX, &trig, &mut StdRng::seed_from_u64(3));
    assert_eq!(climb(&mut second, DX, R_DX, &trig, &mut StdRng::seed_from_u64(3)), area);
    assert_eq!(first, second);
    let mut third = start.clone();
    climb(&mut third, DX, R_DX, &trig, &mut StdRng::seed_from_u64(4)).unwrap();
    assert!(third != first);
}

#[test]
fn climb_without_coefficients_measures_nothing() {
    let mut coefficients: Vec<i64> = vec![];
    let mut rng = StdRng::seed_from_u64(11);
    assert_eq!(climb(&mut coefficients, DX, R_DX, &trig, &mut rng), Ok(0));
    assert!(coefficients.is_empty());
}
