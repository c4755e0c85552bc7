use circuitry::checker::CheckResult;
use circuitry::fib::{run_fib, MyCircuit};
use circuitry::field::Fe;
use circuitry::system::Error;
use circuitry::value::Value;

fn seeds(a: u64, b: u64) -> MyCircuit {
    MyCircuit { a: Value::Known(Fe::from_u64(a)), b: Value::Known(Fe::from_u64(b)) }
}

fn public(a: u64, b: u64, out: u64) -> Vec<Fe> {
    vec![Fe::from_u64(a), Fe::from_u64(b), Fe::from_u64(out)]
}

#[test]
fn chain_of_ones_reaches_fifty_five() {
    let r = run_fib(16, &seeds(1, 1), &public(1, 1, 55));
    assert_eq!(r, Ok(CheckResult::Satisfied));
}

#[test]
fn other_seeds_reach_their_own_sum() {
    // 2, 3, 5, 8, 13, 21, 34, 55, 89, 144 == 43 mod 101
    let r = run_fib(16, &seeds(2, 3), &public(2, 3, 144));
    assert_eq!(r, Ok(CheckResult::Satisfied));
}

#[test]
fn wrong_declared_output_is_a_public_input_mismatch() {
    let r = run_fib(16, &seeds(1, 1), &public(1, 1, 54));
    match r {
        Ok(CheckResult::PublicInputMismatch { binding, row, .. }) => {
            assert_eq!(binding, 2);
            assert_eq!(row, 2);
        },
        other => panic!("expected a public input mismatch, got {:?}", other),
    }
}

#[test]
fn wrong_declared_seed_is_a_public_input_mismatch() {
    let r = run_fib(16, &seeds(1, 1), &public(2, 1, 55));
    match r {
        Ok(CheckResult::PublicInputMismatch { binding, row, .. }) => {
            assert_eq!(binding, 0);
            assert_eq!(row, 0);
        },
        other => panic!("expected a public input mismatch, got {:?}", other),
    }
}

#[test]
fn a_table_with_too_few_rows_is_a_region_bounds_error() {
    let r = run_fib(4, &seeds(1, 1), &public(1, 1, 55));
    assert_eq!(r, Err(Error::RegionBoundsError));
}

#[test]
fn a_shape_only_pass_misused_for_checking_is_a_shape_error() {
    let circuit = seeds(1, 1).without_witnesses();
    let r = run_fib(16, &circuit, &public(1, 1, 55));
    assert_eq!(r, Ok(CheckResult::ShapeError));
}

#[test]
fn checking_twice_yields_the_same_verdict() {
    let c = seeds(1, 1);
    let p = public(1, 1, 54);
    let first = run_fib(16, &c, &p);
    let second = run_fib(16, &c, &p);
    assert_eq!(first, second);
}
