use circuitry::checker::CheckResult;
use circuitry::game::{make_circuit, run_game};
use circuitry::system::Error;

#[test]
fn scenario_a_total_fifteen_is_satisfied() {
    // round 1: y wins (6 + 1 + 1 = 8); round 2: x wins (0 + 0 + 1 = 1);
    // round 3: draw (3 + 2 + 1 = 6); total 15.
    let (circuit, public) = make_circuit(&vec![0, 1, 2], &vec![1, 0, 2], 15);
    let r = run_game(16, &circuit, &public);
    assert_eq!(r, Ok(CheckResult::Satisfied));
}

#[test]
fn scenario_b_declared_fourteen_is_a_public_input_mismatch() {
    let (circuit, public) = make_circuit(&vec![0, 1, 2], &vec![1, 0, 2], 14);
    let r = run_game(16, &circuit, &public);
    match r {
        Ok(CheckResult::PublicInputMismatch { binding, row, .. }) => {
            assert_eq!(binding, 0);
            assert_eq!(row, 2, "the mismatch sits at the last instance row");
        },
        other => panic!("expected a public input mismatch, got {:?}", other),
    }
}

#[test]
fn a_move_outside_the_range_is_a_gate_violation_at_its_row() {
    // x[0] = 5 breaks the cubic range constraint; the declared total (9)
    // matches the accumulator, so the range gate is the only violation.
    let (circuit, public) = make_circuit(&vec![5, 1, 2], &vec![1, 0, 2], 9);
    let r = run_game(16, &circuit, &public);
    match r {
        Ok(CheckResult::GateViolation { gate, poly, row, .. }) => {
            assert_eq!(gate, 2, "the round gate");
            assert_eq!(poly, 1, "the x range constraint");
            assert_eq!(row, 0);
        },
        other => panic!("expected a gate violation, got {:?}", other),
    }
}

#[test]
fn a_bad_y_move_in_a_later_round_is_caught_at_that_row() {
    // total: round 1 y wins 8; round 2 (1, 4): no win, no draw, 4 + 1 = 5;
    // round 3 draw 6; total 19. y[1] = 4 breaks the y range constraint.
    let (circuit, public) = make_circuit(&vec![0, 1, 2], &vec![1, 4, 2], 19);
    let r = run_game(16, &circuit, &public);
    match r {
        Ok(CheckResult::GateViolation { gate, poly, row, .. }) => {
            assert_eq!(gate, 2);
            assert_eq!(poly, 2, "the y range constraint");
            assert_eq!(row, 1);
        },
        other => panic!("expected a gate violation, got {:?}", other),
    }
}

#[test]
fn all_draws_accumulate_three_plus_move_plus_one() {
    // rounds (0,0), (1,1), (2,2): scores 4, 5, 6; total 15.
    let (circuit, public) = make_circuit(&vec![0, 1, 2], &vec![0, 1, 2], 15);
    let r = run_game(16, &circuit, &public);
    assert_eq!(r, Ok(CheckResult::Satisfied));
}

#[test]
fn one_round_game_is_satisfied() {
    // x = 2, y = 0: y wins (rock blunts scissors): 6 + 0 + 1 = 7.
    let (circuit, public) = make_circuit(&vec![2], &vec![0], 7);
    let r = run_game(4, &circuit, &public);
    assert_eq!(r, Ok(CheckResult::Satisfied));
}

#[test]
fn a_game_longer_than_the_table_is_a_region_bounds_error() {
    let (circuit, public) = make_circuit(&vec![0, 1, 2], &vec![1, 0, 2], 15);
    let r = run_game(2, &circuit, &public);
    assert_eq!(r, Err(Error::RegionBoundsError));
}

#[test]
fn a_game_with_no_rounds_is_a_synthesis_error() {
    let circuit = circuitry::game::AdventCircuit { xs: Vec::new(), ys: Vec::new() };
    let public: Vec<circuitry::field::Fe> = Vec::new();
    let r = run_game(4, &circuit, &public);
    assert_eq!(r, Err(Error::Synthesis));
}

#[test]
fn game_verdicts_are_repeatable() {
    let (circuit, public) = make_circuit(&vec![5, 1, 2], &vec![1, 0, 2], 9);
    let first = run_game(16, &circuit, &public);
    let second = run_game(16, &circuit, &public);
    assert_eq!(first, second);
}
