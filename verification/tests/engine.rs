use circuitry::assign::Assignment;
use circuitry::checker::{check, CheckResult};
use circuitry::chips::is_zero::IsZeroChip;
use circuitry::expr::Expr;
use circuitry::field::Fe;
use circuitry::system::{ConstraintSystem, Error};
use circuitry::value::Value;

#[test]
fn two_cells_declared_equal_but_holding_different_values_mismatch() {
    let mut cs = ConstraintSystem::new();
    let c0 = cs.add_advice_column();
    let c1 = cs.add_advice_column();
    cs.enable_equality(c0);
    cs.enable_equality(c1);
    let mut asg = Assignment::new(&cs, 4);
    let region = asg.assign_region("pair", 2).unwrap();
    let src = asg.assign_advice(region, c0, 0, Value::Known(Fe::from_u64(3))).unwrap();
    asg.copy_advice(&cs, src, region, c1, 0).unwrap();
    // Overwrite the copy's destination: the registered constraint stays.
    asg.assign_advice(region, c1, 0, Value::Known(Fe::from_u64(4))).unwrap();
    let inst: Vec<Vec<Fe>> = Vec::new();
    match check(&cs, &asg, &inst) {
        CheckResult::CopyMismatch { pair, left, right } => {
            assert_eq!(pair, 0);
            assert_eq!(left, Value::Known(Fe { rep: 3 }));
            assert_eq!(right, Value::Known(Fe { rep: 4 }));
        },
        other => panic!("expected a copy mismatch, got {:?}", other),
    }
}

#[test]
fn an_honest_copy_passes_the_checker() {
    let mut cs = ConstraintSystem::new();
    let c0 = cs.add_advice_column();
    let c1 = cs.add_advice_column();
    cs.enable_equality(c0);
    cs.enable_equality(c1);
    let mut asg = Assignment::new(&cs, 4);
    let region = asg.assign_region("pair", 2).unwrap();
    let src = asg.assign_advice(region, c0, 0, Value::Known(Fe::from_u64(3))).unwrap();
    asg.copy_advice(&cs, src, region, c1, 0).unwrap();
    let inst: Vec<Vec<Fe>> = Vec::new();
    assert_eq!(check(&cs, &asg, &inst), CheckResult::Satisfied);
}

#[test]
fn copying_through_a_column_without_equality_fails() {
    let mut cs = ConstraintSystem::new();
    let c0 = cs.add_advice_column();
    let c1 = cs.add_advice_column();
    cs.enable_equality(c0);
    let mut asg = Assignment::new(&cs, 4);
    let region = asg.assign_region("pair", 2).unwrap();
    let src = asg.assign_advice(region, c0, 0, Value::Known(Fe::from_u64(3))).unwrap();
    let r = asg.copy_advice(&cs, src, region, c1, 0);
    assert_eq!(r, Err(Error::EqualityNotEnabledError));
}

#[test]
fn touching_a_row_outside_the_region_fails() {
    let mut cs = ConstraintSystem::new();
    let c0 = cs.add_advice_column();
    let mut asg = Assignment::new(&cs, 4);
    let region = asg.assign_region("small", 2).unwrap();
    let r = asg.assign_advice(region, c0, 2, Value::Known(Fe::from_u64(1)));
    assert_eq!(r, Err(Error::RegionBoundsError));
}

#[test]
fn a_region_past_the_table_fails() {
    let cs = {
        let mut cs = ConstraintSystem::new();
        cs.add_advice_column();
        cs
    };
    let mut asg = Assignment::new(&cs, 4);
    asg.assign_region("first", 3).unwrap();
    let r = asg.assign_region("second", 2);
    assert!(matches!(r, Err(Error::RegionBoundsError)));
}

#[test]
fn zero_check_outputs_one_exactly_on_zero() {
    let mut cs = ConstraintSystem::new();
    let value_col = cs.add_advice_column();
    let sel = cs.add_selector();
    let cfg = IsZeroChip::configure(&mut cs, Expr::query(sel, 0), Expr::query(value_col, 0));
    let chip = IsZeroChip::construct(cfg);
    let mut asg = Assignment::new(&cs, 4);
    let region = asg.assign_region("probe", 3).unwrap();
    let on_zero = chip.assign(&mut asg, region, 0, Value::Known(Fe::from_u64(0))).unwrap();
    assert_eq!(on_zero, Value::Known(Fe { rep: 1 }));
    let on_seven = chip.assign(&mut asg, region, 1, Value::Known(Fe::from_u64(7))).unwrap();
    assert_eq!(on_seven, Value::Known(Fe { rep: 0 }));
    let on_unknown = chip.assign(&mut asg, region, 2, Value::Unknown).unwrap();
    assert_eq!(on_unknown, Value::Unknown);
}

#[test]
fn zero_check_writes_the_true_inverse() {
    let mut cs = ConstraintSystem::new();
    let value_col = cs.add_advice_column();
    let sel = cs.add_selector();
    let cfg = IsZeroChip::configure(&mut cs, Expr::query(sel, 0), Expr::query(value_col, 0));
    let inv_col = cfg.value_inv;
    let chip = IsZeroChip::construct(cfg);
    let mut asg = Assignment::new(&cs, 4);
    let region = asg.assign_region("probe", 2).unwrap();
    chip.assign(&mut asg, region, 0, Value::Known(Fe::from_u64(7))).unwrap();
    chip.assign(&mut asg, region, 1, Value::Known(Fe::from_u64(0))).unwrap();
    let written = asg.read_cell(circuitry::expr::Cell { col: inv_col, row: 0 });
    match written {
        Value::Known(inv) => assert_eq!(inv.mul(Fe::from_u64(7)).rep, 1),
        Value::Unknown => panic!("the helper cell was not written"),
    }
    let on_zero = asg.read_cell(circuitry::expr::Cell { col: inv_col, row: 1 });
    assert_eq!(on_zero, Value::Known(Fe { rep: 0 }));
}

#[test]
fn a_gate_on_an_unsatisfying_witness_reports_its_location() {
    // One gate: s * v must vanish; enable the selector and set v nonzero.
    let mut cs = ConstraintSystem::new();
    let v = cs.add_advice_column();
    let sel = cs.add_selector();
    let poly = Expr::query(sel, 0).mul(Expr::query(v, 0));
    cs.create_gate("force zero", vec![poly]);
    let mut asg = Assignment::new(&cs, 4);
    let region = asg.assign_region("one row", 2).unwrap();
    asg.enable_selector(sel, region, 1).unwrap();
    asg.assign_advice(region, v, 1, Value::Known(Fe::from_u64(9))).unwrap();
    let inst: Vec<Vec<Fe>> = Vec::new();
    match check(&cs, &asg, &inst) {
        CheckResult::GateViolation { gate, poly, row, actual } => {
            assert_eq!(gate, 0);
            assert_eq!(poly, 0);
            assert_eq!(row, 1);
            assert_eq!(actual, Fe { rep: 9 });
        },
        other => panic!("expected a gate violation, got {:?}", other),
    }
}

#[test]
fn rotations_outside_the_table_read_zero() {
    // A gate v[cur] * v[next] is evaluated at every row; at the last
    // row the rotation runs off the table and reads the additive
    // identity, so a nonzero value in the last row alone still passes.
    let mut cs = ConstraintSystem::new();
    let v = cs.add_advice_column();
    let poly = Expr::query(v, 0).mul(Expr::query(v, 1));
    cs.create_gate("neighbours", vec![poly]);
    let mut asg = Assignment::new(&cs, 4);
    let region = asg.assign_region("all", 4).unwrap();
    asg.assign_advice(region, v, 3, Value::Known(Fe::from_u64(5))).unwrap();
    let inst: Vec<Vec<Fe>> = Vec::new();
    assert_eq!(check(&cs, &asg, &inst), CheckResult::Satisfied);
}
