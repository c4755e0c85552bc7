//! The satisfaction checker.
//!
//! Given a constraint system, a finished assignment and the declared public
//! instance values, the checker evaluates every gate polynomial at every
//! row, then every registered copy constraint, then every public binding,
//! and reports the first violation it meets — or success. The verdict is a
//! pure function of its inputs ([`check_spec`]), which the executable
//! [`check`] provably computes; idempotence of checking is a corollary.
//!
//! A query whose rotation runs past either end of the table reads the
//! additive identity, the same value an untouched cell holds.

use crate::assign::Assignment;
use crate::expr::{ColKind, Column, Expr};
use crate::field::Fe;
use crate::system::{ConstraintSystem, Gate};
use crate::value::{v_add, v_mul, v_neg, Value};
use vstd::prelude::*;

verus! {

/// Verdict of the checker: success, or the first violation found, with
/// its location and the offending values.
#[derive(Clone, Copy, Debug, PartialEq, Eq, Structural)]
pub enum CheckResult {
    /// Every gate at every row, every copy constraint and every public
    /// binding holds.
    Satisfied,
    /// Gate `gate`'s polynomial `poly` evaluated to the known nonzero
    /// value `actual` at `row`.
    GateViolation { gate: usize, poly: usize, row: usize, actual: Fe },
    /// A checked value was unknown: a shape-only assignment was handed to
    /// the checker.
    ShapeError,
    /// Copy pair `pair` relates two cells holding different values.
    CopyMismatch { pair: usize, left: Value, right: Value },
    /// Public binding `binding` found `actual` in the witness cell where
    /// the instance column declared `expected` at `row`.
    PublicInputMismatch { binding: usize, column: usize, row: usize, expected: Fe, found: Value },
}

/// The value a query yields: the addressed cell's value, a selector read
/// as 1 or 0, or the additive identity outside the table.
pub open spec fn query_value(asg: Assignment, inst: Seq<Vec<Fe>>, c: Column, r: int) -> Value {
    if 0 <= r < asg.n_rows {
        match c.kind {
            ColKind::Advice => asg.advice_at(c.index as int, r),
            ColKind::Fixed => asg.fixed_at(c.index as int, r),
            ColKind::Instance => Value::Known(inst[c.index as int]@[r]),
            ColKind::Selector => Value::Known(
                Fe { rep: if asg.selector_at(c.index as int, r) { 1 } else { 0 } },
            ),
        }
    } else {
        Value::Known(Fe { rep: 0 })
    }
}

/// Evaluation of an expression at a row over an assignment: a field value,
/// or `Unknown` wherever an unknown reaches the result.
pub open spec fn eval_expr(asg: Assignment, inst: Seq<Vec<Fe>>, e: Expr, row: int) -> Value
    decreases e,
{
    match e {
        Expr::Constant(f) => Value::Known(f),
        Expr::Query(c, rot) => query_value(asg, inst, c, row + rot),
        Expr::Neg(a) => v_neg(eval_expr(asg, inst, *a, row)),
        Expr::Add(a, b) => v_add(eval_expr(asg, inst, *a, row), eval_expr(asg, inst, *b, row)),
        Expr::Mul(a, b) => v_mul(eval_expr(asg, inst, *a, row), eval_expr(asg, inst, *b, row)),
    }
}

/// The declared instance values fit the assignment's shape and are
/// reduced.
pub open spec fn inst_ok(asg: Assignment, inst: Seq<Vec<Fe>>) -> bool {
    &&& inst.len() == asg.n_instance
    &&& forall|c: int| 0 <= c < inst.len() ==> (#[trigger] inst[c])@.len() == asg.n_rows
    &&& forall|c: int, r: int|
        0 <= c < inst.len() && 0 <= r < inst[c]@.len() ==> (#[trigger] inst[c]@[r]).wf()
}

/// One gate polynomial holds at one row: it evaluates to the additive
/// identity.
pub open spec fn gate_poly_ok(asg: Assignment, inst: Seq<Vec<Fe>>, e: Expr, row: int) -> bool {
    eval_expr(asg, inst, e, row) == Value::Known(Fe { rep: 0 })
}

/// One copy constraint holds: both cells hold the same known value.
pub open spec fn copy_ok(asg: Assignment, pr: (crate::expr::Cell, crate::expr::Cell)) -> bool {
    asg.cell_value(pr.0) is Known && asg.cell_value(pr.0) == asg.cell_value(pr.1)
}

/// One public binding holds: the witness cell holds exactly the declared
/// instance value.
pub open spec fn binding_ok(
    asg: Assignment,
    inst: Seq<Vec<Fe>>,
    b: (crate::expr::Cell, usize, usize),
) -> bool {
    asg.cell_value(b.0) == Value::Known(inst[b.1 as int]@[b.2 as int])
}

/// Total satisfaction: every gate polynomial vanishes at every row, every
/// copy constraint and every public binding holds.
pub open spec fn satisfied(cs: ConstraintSystem, asg: Assignment, inst: Seq<Vec<Fe>>) -> bool {
    &&& forall|row: int, g: int, p: int|
        0 <= row < asg.n_rows && 0 <= g < cs.gates@.len() && 0 <= p
            < cs.gates@[g].polys@.len() ==> #[trigger] gate_poly_ok(
            asg,
            inst,
            cs.gates@[g].polys@[p],
            row,
        )
    &&& forall|i: int| 0 <= i < asg.copies@.len() ==> copy_ok(asg, #[trigger] asg.copies@[i])
    &&& forall|i: int|
        0 <= i < asg.bindings@.len() ==> binding_ok(asg, inst, #[trigger] asg.bindings@[i])
}

/// First violation among the polynomials of gate `gi` at `row`, from
/// polynomial `p` on.
pub open spec fn scan_polys(
    asg: Assignment,
    inst: Seq<Vec<Fe>>,
    gi: int,
    polys: Seq<Expr>,
    row: int,
    p: int,
) -> CheckResult
    decreases polys.len() - p,
{
    if p < 0 || p >= polys.len() {
        CheckResult::Satisfied
    } else {
        match eval_expr(asg, inst, polys[p], row) {
            Value::Known(f) => if f.rep == 0 {
                scan_polys(asg, inst, gi, polys, row, p + 1)
            } else {
                CheckResult::GateViolation {
                    gate: gi as usize,
                    poly: p as usize,
                    row: row as usize,
                    actual: f,
                }
            },
            Value::Unknown => CheckResult::ShapeError,
        }
    }
}

/// First violation among all gates at `row`, from gate `g` on.
pub open spec fn scan_gates(
    asg: Assignment,
    inst: Seq<Vec<Fe>>,
    gates: Seq<Gate>,
    row: int,
    g: int,
) -> CheckResult
    decreases gates.len() - g,
{
    if g < 0 || g >= gates.len() {
        CheckResult::Satisfied
    } else {
        let r = scan_polys(asg, inst, g, gates[g].polys@, row, 0);
        if r == CheckResult::Satisfied {
            scan_gates(asg, inst, gates, row, g + 1)
        } else {
            r
        }
    }
}

/// First gate violation in row-major order, from `row` on.
pub open spec fn scan_rows(
    asg: Assignment,
    inst: Seq<Vec<Fe>>,
    gates: Seq<Gate>,
    row: int,
) -> CheckResult
    decreases asg.n_rows - row,
{
    if row < 0 || row >= asg.n_rows {
        CheckResult::Satisfied
    } else {
        let r = scan_gates(asg, inst, gates, row, 0);
        if r == CheckResult::Satisfied {
            scan_rows(asg, inst, gates, row + 1)
        } else {
            r
        }
    }
}

/// First failing copy constraint, from pair `i` on.
pub open spec fn scan_copies(asg: Assignment, i: int) -> CheckResult
    decreases asg.copies@.len() - i,
{
    if i < 0 || i >= asg.copies@.len() {
        CheckResult::Satisfied
    } else {
        let a = asg.cell_value(asg.copies@[i].0);
        let b = asg.cell_value(asg.copies@[i].1);
        if a is Known && b is Known {
            if a == b {
                scan_copies(asg, i + 1)
            } else {
                CheckResult::CopyMismatch { pair: i as usize, left: a, right: b }
            }
        } else {
            CheckResult::ShapeError
        }
    }
}

/// First failing public binding, from binding `i` on.
pub open spec fn scan_bindings(asg: Assignment, inst: Seq<Vec<Fe>>, i: int) -> CheckResult
    decreases asg.bindings@.len() - i,
{
    if i < 0 || i >= asg.bindings@.len() {
        CheckResult::Satisfied
    } else {
        let b = asg.bindings@[i];
        let v = asg.cell_value(b.0);
        let d = inst[b.1 as int]@[b.2 as int];
        if v is Known {
            if v == Value::Known(d) {
                scan_bindings(asg, inst, i + 1)
            } else {
                CheckResult::PublicInputMismatch {
                    binding: i as usize,
                    column: b.1,
                    row: b.2,
                    expected: d,
                    found: v,
                }
            }
        } else {
            CheckResult::ShapeError
        }
    }
}

/// The checker's verdict as a pure function of its inputs: gates in
/// row-major order first, then copy constraints, then public bindings.
pub open spec fn check_spec(cs: ConstraintSystem, asg: Assignment, inst: Seq<Vec<Fe>>) -> CheckResult {
    let r1 = scan_rows(asg, inst, cs.gates@, 0);
    if r1 != CheckResult::Satisfied {
        r1
    } else {
        let r2 = scan_copies(asg, 0);
        if r2 != CheckResult::Satisfied {
            r2
        } else {
            scan_bindings(asg, inst, 0)
        }
    }
}

proof fn lemma_scan_polys_iff(
    asg: Assignment,
    inst: Seq<Vec<Fe>>,
    gi: int,
    polys: Seq<Expr>,
    row: int,
    p: int,
)
    requires
        0 <= p <= polys.len(),
    ensures
        scan_polys(asg, inst, gi, polys, row, p) == CheckResult::Satisfied <==> forall|j: int|
            p <= j < polys.len() ==> gate_poly_ok(asg, inst, #[trigger] polys[j], row),
    decreases polys.len() - p,
{
    if p < polys.len() {
        lemma_scan_polys_iff(asg, inst, gi, polys, row, p + 1);
    }
}

proof fn lemma_scan_gates_iff(
    asg: Assignment,
    inst: Seq<Vec<Fe>>,
    gates: Seq<Gate>,
    row: int,
    g: int,
)
    requires
        0 <= g <= gates.len(),
    ensures
        scan_gates(asg, inst, gates, row, g) == CheckResult::Satisfied <==> forall|h: int, p: int|
            g <= h < gates.len() && 0 <= p < gates[h].polys@.len() ==> gate_poly_ok(
                asg,
                inst,
                #[trigger] gates[h].polys@[p],
                row,
            ),
    decreases gates.len() - g,
{
    if g < gates.len() {
        lemma_scan_polys_iff(asg, inst, g, gates[g].polys@, row, 0);
        lemma_scan_gates_iff(asg, inst, gates, row, g + 1);
    }
}

proof fn lemma_scan_rows_iff(asg: Assignment, inst: Seq<Vec<Fe>>, gates: Seq<Gate>, row: int)
    requires
        0 <= row <= asg.n_rows,
    ensures
        scan_rows(asg, inst, gates, row) == CheckResult::Satisfied <==> forall|r: int, h: int, p: int|
            row <= r < asg.n_rows && 0 <= h < gates.len() && 0 <= p < gates[h].polys@.len()
                ==> #[trigger] gate_poly_ok(asg, inst, gates[h].polys@[p], r),
    decreases asg.n_rows - row,
{
    if row < asg.n_rows {
        lemma_scan_gates_iff(asg, inst, gates, row, 0);
        lemma_scan_rows_iff(asg, inst, gates, row + 1);
        if scan_rows(asg, inst, gates, row) == CheckResult::Satisfied {
            assert forall|r: int, h: int, p: int|
                row <= r < asg.n_rows && 0 <= h < gates.len() && 0 <= p
                    < gates[h].polys@.len() implies #[trigger] gate_poly_ok(
                asg,
                inst,
                gates[h].polys@[p],
                r,
            ) by {
                if r == row {
                    assert(gate_poly_ok(asg, inst, gates[h].polys@[p], r));
                }
            }
        }
    }
}

proof fn lemma_scan_copies_iff(asg: Assignment, i: int)
    requires
        0 <= i <= asg.copies@.len(),
    ensures
        scan_copies(asg, i) == CheckResult::Satisfied <==> forall|j: int|
            i <= j < asg.copies@.len() ==> copy_ok(asg, #[trigger] asg.copies@[j]),
    decreases asg.copies@.len() - i,
{
    if i < asg.copies@.len() {
        lemma_scan_copies_iff(asg, i + 1);
    }
}

proof fn lemma_scan_bindings_iff(asg: Assignment, inst: Seq<Vec<Fe>>, i: int)
    requires
        0 <= i <= asg.bindings@.len(),
    ensures
        scan_bindings(asg, inst, i) == CheckResult::Satisfied <==> forall|j: int|
            i <= j < asg.bindings@.len() ==> binding_ok(asg, inst, #[trigger] asg.bindings@[j]),
    decreases asg.bindings@.len() - i,
{
    if i < asg.bindings@.len() {
        lemma_scan_bindings_iff(asg, inst, i + 1);
    }
}

/// The composed verdict succeeds exactly on satisfied triples.
pub proof fn lemma_check_spec_satisfied(cs: ConstraintSystem, asg: Assignment, inst: Seq<Vec<Fe>>)
    ensures
        check_spec(cs, asg, inst) == CheckResult::Satisfied <==> satisfied(cs, asg, inst),
{
    lemma_scan_rows_iff(asg, inst, cs.gates@, 0);
    lemma_scan_copies_iff(asg, 0);
    lemma_scan_bindings_iff(asg, inst, 0);
}

/// Idempotent checking: the verdict is a function of the system, the
/// assignment and the public inputs alone, so checking the same triple
/// twice yields the same verdict.
pub proof fn lemma_check_idempotent(
    cs: ConstraintSystem,
    asg: Assignment,
    inst: Seq<Vec<Fe>>,
    r1: CheckResult,
    r2: CheckResult,
)
    requires
        r1 == check_spec(cs, asg, inst),
        r2 == check_spec(cs, asg, inst),
    ensures
        r1 == r2,
{
}

/// Copy-constraint enforcement: a registered pair whose two cells hold
/// different known values is never silently passed over.
pub proof fn lemma_copy_mismatch_detected(
    cs: ConstraintSystem,
    asg: Assignment,
    inst: Seq<Vec<Fe>>,
    i: int,
)
    requires
        0 <= i < asg.copies@.len(),
        asg.cell_value(asg.copies@[i].0) is Known,
        asg.cell_value(asg.copies@[i].1) is Known,
        asg.cell_value(asg.copies@[i].0) != asg.cell_value(asg.copies@[i].1),
    ensures
        check_spec(cs, asg, inst) != CheckResult::Satisfied,
{
    lemma_check_spec_satisfied(cs, asg, inst);
    assert(!copy_ok(asg, asg.copies@[i]));
}

/// Evaluate an expression at a row.
pub fn eval(
    cs: &ConstraintSystem,
    asg: &Assignment,
    inst: &Vec<Vec<Fe>>,
    e: &Expr,
    row: usize,
) -> (r: Value)
    requires
        cs.wf(),
        asg.wf(),
        asg.shape_of(*cs),
        inst_ok(*asg, inst@),
        cs.expr_ok(*e),
        row < asg.n_rows,
    ensures
        r == eval_expr(*asg, inst@, *e, row as int),
        r.wf(),
    decreases *e,
{
    match e {
        Expr::Constant(f) => Value::Known(*f),
        Expr::Query(c, rot) => {
            let resolved: i128 = row as i128 + (*rot as i128);
            if 0 <= resolved && resolved < asg.n_rows as i128 {
                let rr = resolved as usize;
                match c.kind {
                    ColKind::Advice => {
                        let total = asg.advice.len();
                        proof {
                            crate::assign::lemma_flat_index(c.index as int, rr as int,
                                asg.n_advice as int, asg.n_rows as int);
                            assert(c.index * asg.n_rows + rr < total);
                        }
                        asg.advice[c.index * asg.n_rows + rr]
                    },
                    ColKind::Fixed => {
                        let total = asg.fixed.len();
                        proof {
                            crate::assign::lemma_flat_index(c.index as int, rr as int,
                                asg.n_fixed as int, asg.n_rows as int);
                            assert(c.index * asg.n_rows + rr < total);
                        }
                        asg.fixed[c.index * asg.n_rows + rr]
                    },
                    ColKind::Instance => Value::Known(inst[c.index][rr]),
                    ColKind::Selector => {
                        let total = asg.selectors.len();
                        proof {
                            crate::assign::lemma_flat_index(c.index as int, rr as int,
                                asg.n_selectors as int, asg.n_rows as int);
                            assert(c.index * asg.n_rows + rr < total);
                        }
                        if asg.selectors[c.index * asg.n_rows + rr] {
                            Value::Known(Fe { rep: 1 })
                        } else {
                            Value::Known(Fe { rep: 0 })
                        }
                    },
                }
            } else {
                Value::Known(Fe { rep: 0 })
            }
        },
        Expr::Neg(a) => eval(cs, asg, inst, a, row).neg(),
        Expr::Add(a, b) => {
            let va = eval(cs, asg, inst, a, row);
            let vb = eval(cs, asg, inst, b, row);
            va.add(vb)
        },
        Expr::Mul(a, b) => {
            let va = eval(cs, asg, inst, a, row);
            let vb = eval(cs, asg, inst, b, row);
            va.mul(vb)
        },
    }
}

/// Check every gate at every row, then every copy constraint, then every
/// public binding, and report the first violation or success. The result
/// is exactly [`check_spec`], and it is `Satisfied` iff the triple is
/// [`satisfied`].
#[verifier::loop_isolation(false)]
pub fn check(cs: &ConstraintSystem, asg: &Assignment, inst: &Vec<Vec<Fe>>) -> (r: CheckResult)
    requires
        cs.wf(),
        asg.wf(),
        asg.shape_of(*cs),
        inst_ok(*asg, inst@),
    ensures
        r == check_spec(*cs, *asg, inst@),
        r == CheckResult::Satisfied <==> satisfied(*cs, *asg, inst@),
{
    proof {
        lemma_check_spec_satisfied(*cs, *asg, inst@);
    }
    let mut row: usize = 0;
    while row < asg.n_rows
        invariant
            cs.wf(),
            asg.wf(),
            asg.shape_of(*cs),
            inst_ok(*asg, inst@),
            row <= asg.n_rows,
            scan_rows(*asg, inst@, cs.gates@, 0) == scan_rows(*asg, inst@, cs.gates@, row as int),
        decreases asg.n_rows - row,
    {
        let r = check_one_row(cs, asg, inst, row);
        if !matches!(r, CheckResult::Satisfied) {
            return r;
        }
        row = row + 1;
    }
    let mut i: usize = 0;
    let ncopies = asg.copies.len();
    while i < ncopies
        invariant
            cs.wf(),
            asg.wf(),
            asg.shape_of(*cs),
            inst_ok(*asg, inst@),
            i <= ncopies,
            ncopies == asg.copies@.len(),
            scan_rows(*asg, inst@, cs.gates@, 0) == CheckResult::Satisfied,
            scan_copies(*asg, 0) == scan_copies(*asg, i as int),
        decreases ncopies - i,
    {
        let (ca, cb) = asg.copies[i];
        let a = asg.read_cell(ca);
        let b = asg.read_cell(cb);
        if a.is_known() && b.is_known() {
            if !values_equal(a, b) {
                return CheckResult::CopyMismatch { pair: i, left: a, right: b };
            }
        } else {
            return CheckResult::ShapeError;
        }
        i = i + 1;
    }
    let mut i: usize = 0;
    let nbind = asg.bindings.len();
    while i < nbind
        invariant
            cs.wf(),
            asg.wf(),
            asg.shape_of(*cs),
            inst_ok(*asg, inst@),
            i <= nbind,
            nbind == asg.bindings@.len(),
            scan_rows(*asg, inst@, cs.gates@, 0) == CheckResult::Satisfied,
            scan_copies(*asg, 0) == CheckResult::Satisfied,
            scan_bindings(*asg, inst@, 0) == scan_bindings(*asg, inst@, i as int),
        decreases nbind - i,
    {
        let (cell, col, brow) = asg.bindings[i];
        let v = asg.read_cell(cell);
        let d = inst[col][brow];
        if v.is_known() {
            if !values_equal(v, Value::Known(d)) {
                return CheckResult::PublicInputMismatch {
                    binding: i,
                    column: col,
                    row: brow,
                    expected: d,
                    found: v,
                };
            }
        } else {
            return CheckResult::ShapeError;
        }
        i = i + 1;
    }
    CheckResult::Satisfied
}

/// Check every polynomial of every gate at one row; first violation wins.
#[verifier::loop_isolation(false)]
fn check_one_row(cs: &ConstraintSystem, asg: &Assignment, inst: &Vec<Vec<Fe>>, row: usize) -> (r:
    CheckResult)
    requires
        cs.wf(),
        asg.wf(),
        asg.shape_of(*cs),
        inst_ok(*asg, inst@),
        row < asg.n_rows,
    ensures
        r == scan_gates(*asg, inst@, cs.gates@, row as int, 0),
{
    let mut g: usize = 0;
    let ngates = cs.gates.len();
    while g < ngates
        invariant
            cs.wf(),
            asg.wf(),
            asg.shape_of(*cs),
            inst_ok(*asg, inst@),
            row < asg.n_rows,
            g <= ngates,
            ngates == cs.gates@.len(),
            scan_gates(*asg, inst@, cs.gates@, row as int, 0) == scan_gates(
                *asg,
                inst@,
                cs.gates@,
                row as int,
                g as int,
            ),
        decreases ngates - g,
    {
        let gate = &cs.gates[g];
        let mut p: usize = 0;
        let npolys = gate.polys.len();
        while p < npolys
            invariant
                cs.wf(),
                asg.wf(),
                asg.shape_of(*cs),
                inst_ok(*asg, inst@),
                row < asg.n_rows,
                g < ngates,
                ngates == cs.gates@.len(),
                p <= npolys,
                *gate == cs.gates@[g as int],
                npolys == gate.polys@.len(),
                cs.gate_ok(cs.gates@[g as int]),
                scan_polys(*asg, inst@, g as int, gate.polys@, row as int, 0) == scan_polys(
                    *asg,
                    inst@,
                    g as int,
                    gate.polys@,
                    row as int,
                    p as int,
                ),
            decreases npolys - p,
        {
            let v = eval(cs, asg, inst, &gate.polys[p], row);
            match v {
                Value::Known(f) => {
                    if f.rep != 0 {
                        let out = CheckResult::GateViolation { gate: g, poly: p, row, actual: f };
                        proof {
                            assert(scan_polys(*asg, inst@, g as int, gate.polys@, row as int,
                                p as int) == out);
                            assert(scan_gates(*asg, inst@, cs.gates@, row as int, g as int)
                                == out);
                        }
                        return out;
                    }
                },
                Value::Unknown => {
                    proof {
                        assert(scan_polys(*asg, inst@, g as int, gate.polys@, row as int, p as int)
                            == CheckResult::ShapeError);
                        assert(scan_gates(*asg, inst@, cs.gates@, row as int, g as int)
                            == CheckResult::ShapeError);
                    }
                    return CheckResult::ShapeError;
                },
            }
            p = p + 1;
        }
        g = g + 1;
    }
    CheckResult::Satisfied
}

/// A single instance column of height `n`: the declared values first,
/// the additive identity everywhere after.
pub open spec fn inst_padded(inst: Seq<Vec<Fe>>, src: Seq<Fe>, n: int) -> bool {
    &&& inst.len() == 1
    &&& inst[0]@.len() == n
    &&& forall|i: int| 0 <= i < src.len() ==> inst[0]@[i] == src[i]
    &&& forall|i: int| src.len() <= i < n ==> inst[0]@[i] == (Fe { rep: 0 })
}

/// An instance column padded with the additive identity up to the table
/// height: only the leading declared values matter, the rest are zeros.
pub fn pad_column(src: &Vec<Fe>, n: usize) -> (r: Vec<Fe>)
    requires
        src@.len() <= n,
        forall|i: int| 0 <= i < src@.len() ==> (#[trigger] src@[i]).wf(),
    ensures
        r@.len() == n,
        forall|i: int| 0 <= i < src@.len() ==> r@[i] == src@[i],
        forall|i: int| src@.len() <= i < n ==> r@[i] == (Fe { rep: 0 }),
        forall|i: int| 0 <= i < n ==> (#[trigger] r@[i]).wf(),
{
    let mut out: Vec<Fe> = Vec::new();
    let mut i: usize = 0;
    let len = src.len();
    while i < len
        invariant
            i <= len,
            len == src@.len() <= n,
            out@.len() == i,
            forall|j: int| 0 <= j < i ==> out@[j] == src@[j],
            forall|j: int| 0 <= j < src@.len() ==> (#[trigger] src@[j]).wf(),
        decreases len - i,
    {
        out.push(src[i]);
        i = i + 1;
    }
    while i < n
        invariant
            src@.len() <= i <= n,
            out@.len() == i,
            forall|j: int| 0 <= j < src@.len() ==> out@[j] == src@[j],
            forall|j: int| src@.len() <= j < i ==> out@[j] == (Fe { rep: 0 }),
            forall|j: int| 0 <= j < src@.len() ==> (#[trigger] src@[j]).wf(),
        decreases n - i,
    {
        out.push(Fe { rep: 0 });
        i = i + 1;
    }
    out
}

/// Equality of two values, decided structurally.
fn values_equal(a: Value, b: Value) -> (r: bool)
    ensures
        r == (a == b),
{
    match (a, b) {
        (Value::Known(x), Value::Known(y)) => x.rep == y.rep,
        (Value::Unknown, Value::Unknown) => true,
        _ => false,
    }
}

} // verus!
