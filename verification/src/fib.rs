//! The Fibonacci-chain circuit.
//!
//! Three advice columns `a`, `b`, `c` with the single gate
//! `s * (a + b - c) == 0`; each region owns one row, and successive rows
//! are stitched together with copy constraints (`b` and `c` of one row
//! become `a` and `b` of the next), so the `c` column accumulates the
//! chain `c[i] = c[i-1] + c[i-2]` seeded by the two public inputs. The
//! first two cells and the final accumulator are bound to the public
//! instance column.

use crate::assign::{Assignment, Region};
use crate::checker::{
    binding_ok, check, check_spec, copy_ok, eval_expr, gate_poly_ok, inst_ok, query_value,
    satisfied, CheckResult,
};
use crate::expr::{Cell, ColKind, Column, Expr};
use crate::field::{fadd, fmul, lemma_add_neg, Fe};
use crate::system::{ConstraintSystem, Error};
use crate::value::{v_add, v_mul, v_neg, Value};
use vstd::prelude::*;

verus! {

/// Shape of the addition gate polynomial: `s * (a + b - c)`, the
/// difference spelled as `(a + b) + (-c)`.
pub open spec fn is_add_gate_shape(p: Expr, sel: Column, a: Column, b: Column, c: Column) -> bool {
    match p {
        Expr::Mul(s, rest) => *s == Expr::Query(sel, 0) && match *rest {
            Expr::Add(ab, negc) => (match *ab {
                Expr::Add(qa, qb) => *qa == Expr::Query(a, 0) && *qb == Expr::Query(b, 0),
                _ => false,
            }) && (match *negc {
                Expr::Neg(qc) => *qc == Expr::Query(c, 0),
                _ => false,
            }),
            _ => false,
        },
        _ => false,
    }
}

/// The chain value at position `i`: the two seeds, then the running sum,
/// with unknowns propagating through.
pub open spec fn vfib(a: Value, b: Value, i: nat) -> Value
    decreases i,
{
    if i == 0 {
        a
    } else if i == 1 {
        b
    } else {
        v_add(vfib(a, b, (i - 2) as nat), vfib(a, b, (i - 1) as nat))
    }
}

/// Chain-sum correctness: every element of the chain from position 2 on
/// is the sum of its two predecessors.
pub proof fn lemma_chain_sum(a: Value, b: Value, i: nat)
    requires
        2 <= i,
    ensures
        vfib(a, b, i) == v_add(vfib(a, b, (i - 2) as nat), vfib(a, b, (i - 1) as nat)),
{
}

/// Configuration of the Fibonacci chip: three advice columns, a gate
/// selector, and the public instance column.
#[derive(Clone, Copy, Debug)]
pub struct FiboConfig {
    pub col_a: Column,
    pub col_b: Column,
    pub col_c: Column,
    pub selector: Column,
    pub instance: Column,
}

/// The configuration names in-range columns of the right kinds, pairwise
/// distinct where it matters.
pub open spec fn fib_cfg_ok(cfg: FiboConfig, asg: Assignment) -> bool {
    &&& cfg.col_a.kind == ColKind::Advice && cfg.col_a.index < asg.n_advice
    &&& cfg.col_b.kind == ColKind::Advice && cfg.col_b.index < asg.n_advice
    &&& cfg.col_c.kind == ColKind::Advice && cfg.col_c.index < asg.n_advice
    &&& cfg.selector.kind == ColKind::Selector && cfg.selector.index < asg.n_selectors
    &&& cfg.instance.kind == ColKind::Instance && cfg.instance.index < asg.n_instance
    &&& cfg.col_a.index != cfg.col_b.index
    &&& cfg.col_a.index != cfg.col_c.index
    &&& cfg.col_b.index != cfg.col_c.index
}

/// The `j`-th copy constraint synthesis registers: each new row copies
/// the previous row's `b` and `c` cells into its `a` and `b` cells.
pub open spec fn fib_copy(cfg: FiboConfig, j: int) -> (Cell, Cell) {
    let k = j / 2;
    if j % 2 == 0 {
        (
            if k == 0 {
                Cell { col: cfg.col_b, row: 0 }
            } else {
                Cell { col: cfg.col_c, row: (k - 1) as usize }
            },
            Cell { col: cfg.col_a, row: (k + 1) as usize },
        )
    } else {
        (Cell { col: cfg.col_c, row: k as usize }, Cell { col: cfg.col_b, row: (k + 1) as usize })
    }
}

/// Everything synthesis writes into the value tables: the chain values in
/// the first eight rows of the three chain columns, the additive identity
/// in every other cell, the selector on exactly the chain rows, and the
/// fourteen stitching copy constraints.
pub open spec fn fib_tables_ok(cfg: FiboConfig, a: Value, b: Value, asg: Assignment) -> bool {
    &&& forall|i: int|
        0 <= i < 8 ==> asg.advice_at(cfg.col_a.index as int, i) == vfib(a, b, i as nat)
    &&& forall|i: int|
        0 <= i < 8 ==> asg.advice_at(cfg.col_b.index as int, i) == vfib(a, b, (i + 1) as nat)
    &&& forall|i: int|
        0 <= i < 8 ==> asg.advice_at(cfg.col_c.index as int, i) == vfib(a, b, (i + 2) as nat)
    &&& forall|ci: int, ri: int|
        0 <= ci < asg.n_advice && 0 <= ri < asg.n_rows && !(ri < 8 && (ci == cfg.col_a.index
            || ci == cfg.col_b.index || ci == cfg.col_c.index)) ==> asg.advice_at(ci, ri)
            == Value::Known(Fe { rep: 0 })
    &&& forall|ci: int, ri: int|
        0 <= ci < asg.n_selectors && 0 <= ri < asg.n_rows ==> asg.selector_at(ci, ri) == (ci
            == cfg.selector.index && ri < 8)
    &&& asg.copies@.len() == 14
    &&& forall|j: int| 0 <= j < 14 ==> asg.copies@[j] == fib_copy(cfg, j)
}

/// The Fibonacci chip: assigns chain rows and exposes cells publicly.
pub struct FiboChip {
    pub config: FiboConfig,
}

impl FiboChip {
    pub fn construct(config: FiboConfig) -> (r: FiboChip)
        ensures
            r.config == config,
    {
        FiboChip { config }
    }

    /// Enable equality on the three advice columns and the instance
    /// column, and register the addition gate.
    pub fn configure(
        meta: &mut ConstraintSystem,
        col_a: Column,
        col_b: Column,
        col_c: Column,
        instance: Column,
    ) -> (r: FiboConfig)
        requires
            old(meta).wf(),
            col_a.kind == ColKind::Advice && col_a.index < old(meta).num_advice,
            col_b.kind == ColKind::Advice && col_b.index < old(meta).num_advice,
            col_c.kind == ColKind::Advice && col_c.index < old(meta).num_advice,
            instance.kind == ColKind::Instance && instance.index < old(meta).num_instance,
            old(meta).num_selectors < usize::MAX,
        ensures
            final(meta).wf(),
            r.col_a == col_a && r.col_b == col_b && r.col_c == col_c && r.instance == instance,
            r.selector == (Column { kind: ColKind::Selector, index: old(meta).num_selectors }),
            final(meta).num_advice == old(meta).num_advice,
            final(meta).num_fixed == old(meta).num_fixed,
            final(meta).num_instance == old(meta).num_instance,
            final(meta).num_selectors == old(meta).num_selectors + 1,
            final(meta).eq_enabled(col_a),
            final(meta).eq_enabled(col_b),
            final(meta).eq_enabled(col_c),
            final(meta).eq_enabled(instance),
            forall|d: Column|
                d != col_a && d != col_b && d != col_c && d != instance
                    ==> final(meta).eq_enabled(d) == old(meta).eq_enabled(d),
            final(meta).gates@.len() == old(meta).gates@.len() + 1,
            forall|i: int|
                0 <= i < old(meta).gates@.len() ==> final(meta).gates@[i] == old(meta).gates@[i],
            ({
                let g = final(meta).gates@[final(meta).gates@.len() - 1];
                g.name == "add" && g.polys@.len() == 1 && is_add_gate_shape(g.polys@[0],
                    r.selector, col_a, col_b, col_c)
            }),
    {
        let selector = meta.add_selector();
        meta.enable_equality(col_a);
        meta.enable_equality(col_b);
        meta.enable_equality(col_c);
        meta.enable_equality(instance);
        let s = Expr::query(selector, 0);
        let body = Expr::query(col_a, 0).add(Expr::query(col_b, 0)).sub(Expr::query(col_c, 0));
        let poly = s.mul(body);
        proof {
            let rest = *(poly->Mul_1);
            let ab = *(rest->Add_0);
            assert(meta.expr_ok(*(ab->Add_0)));
            assert(meta.expr_ok(*(ab->Add_1)));
            assert(meta.expr_ok(ab));
            let negc = *(rest->Add_1);
            assert(meta.expr_ok(*(negc->Neg_0)));
            assert(meta.expr_ok(negc));
            assert(meta.expr_ok(rest));
            assert(meta.expr_ok(*(poly->Mul_0)));
            assert(meta.expr_ok(poly));
        }
        let mut polys: Vec<Expr> = Vec::new();
        polys.push(poly);
        meta.create_gate("add", polys);
        proof {
            assert forall|d: Column|
                d != col_a && d != col_b && d != col_c && d != instance implies meta.eq_enabled(d)
                == old(meta).eq_enabled(d) by {
                if d.kind == ColKind::Advice {
                    assert(d.index != col_a.index && d.index != col_b.index && d.index
                        != col_c.index);
                }
            }
        }
        FiboConfig { col_a, col_b, col_c, selector, instance }
    }

    /// Fill the first chain row: the two seeds and their sum, in a fresh
    /// one-row region with its gate selector enabled. Fails iff no row is
    /// left for the region.
    pub fn assign_first_row(&self, asg: &mut Assignment, a: Value, b: Value) -> (r: Result<
        (Cell, Cell, Cell),
        Error,
    >)
        requires
            old(asg).wf(),
            fib_cfg_ok(self.config, *old(asg)),
            a.wf(),
            b.wf(),
        ensures
            final(asg).wf(),
            r is Ok <==> old(asg).next_row + 1 <= old(asg).n_rows,
            r is Err ==> *final(asg) == *old(asg) && r == Err::<(Cell, Cell, Cell), Error>(
                Error::RegionBoundsError,
            ),
            r matches Ok(cells) ==> ({
                let row = old(asg).next_row as int;
                let cfg = self.config;
                &&& cells == (
                    Cell { col: cfg.col_a, row: old(asg).next_row },
                    Cell { col: cfg.col_b, row: old(asg).next_row },
                    Cell { col: cfg.col_c, row: old(asg).next_row },
                )
                &&& final(asg).advice@.len() == old(asg).advice@.len()
                &&& final(asg).advice_at(cfg.col_a.index as int, row) == a
                &&& final(asg).advice_at(cfg.col_b.index as int, row) == b
                &&& final(asg).advice_at(cfg.col_c.index as int, row) == v_add(a, b)
                &&& forall|ci: int, ri: int|
                    0 <= ci < final(asg).n_advice && 0 <= ri < final(asg).n_rows && !(ri == row
                        && (ci == cfg.col_a.index || ci == cfg.col_b.index || ci
                        == cfg.col_c.index)) ==> final(asg).advice_at(ci, ri) == old(asg).advice_at(ci, ri)
                &&& final(asg).selectors@.len() == old(asg).selectors@.len()
                &&& final(asg).selector_at(cfg.selector.index as int, row)
                &&& forall|ci: int, ri: int|
                    0 <= ci < final(asg).n_selectors && 0 <= ri < final(asg).n_rows && !(ri == row
                        && ci == cfg.selector.index) ==> final(asg).selector_at(ci, ri) == old(asg).selector_at(ci, ri)
                &&& final(asg).fixed == old(asg).fixed
                &&& final(asg).copies == old(asg).copies
                &&& final(asg).bindings == old(asg).bindings
                &&& final(asg).next_row == old(asg).next_row + 1
                &&& final(asg).n_rows == old(asg).n_rows
                &&& final(asg).n_advice == old(asg).n_advice
                &&& final(asg).n_fixed == old(asg).n_fixed
                &&& final(asg).n_instance == old(asg).n_instance
                &&& final(asg).n_selectors == old(asg).n_selectors
            }),
    {
        let region = match asg.assign_region("first row", 1) {
            Ok(reg) => reg,
            Err(e) => {
                return Err(e);
            },
        };
        let cfg = self.config;
        match asg.enable_selector(cfg.selector, region, 0) {
            Ok(_) => {},
            Err(e) => {
                return Err(e);
            },
        }
        let a_cell = match asg.assign_advice(region, cfg.col_a, 0, a) {
            Ok(c) => c,
            Err(e) => {
                return Err(e);
            },
        };
        let b_cell = match asg.assign_advice(region, cfg.col_b, 0, b) {
            Ok(c) => c,
            Err(e) => {
                return Err(e);
            },
        };
        let c_val = a.add(b);
        let c_cell = match asg.assign_advice(region, cfg.col_c, 0, c_val) {
            Ok(c) => c,
            Err(e) => {
                return Err(e);
            },
        };
        proof {
            let n = old(asg).n_rows as int;
            let row = old(asg).next_row as int;
            let ca = cfg.col_a.index as int;
            let cb = cfg.col_b.index as int;
            let cc = cfg.col_c.index as int;
            lemma_neq_idx(ca, row, cb, row, n);
            lemma_neq_idx(ca, row, cc, row, n);
            lemma_neq_idx(cb, row, cc, row, n);
            crate::assign::lemma_flat_index(ca, row, asg.n_advice as int, n);
            crate::assign::lemma_flat_index(cb, row, asg.n_advice as int, n);
            crate::assign::lemma_flat_index(cc, row, asg.n_advice as int, n);
            assert(asg.n_rows == old(asg).n_rows);
            assert(asg.advice@[ca * n + row] == a);
            assert(asg.advice@[cb * n + row] == b);
            assert(asg.advice@[cc * n + row] == v_add(a, b));
            assert forall|ci: int, ri: int|
                0 <= ci < asg.n_advice && 0 <= ri < asg.n_rows && !(ri == row && (ci == ca || ci
                    == cb || ci == cc)) implies asg.advice_at(ci, ri) == old(asg).advice_at(
                ci,
                ri,
            ) by {
                lemma_neq_idx(ci, ri, ca, row, n);
                lemma_neq_idx(ci, ri, cb, row, n);
                lemma_neq_idx(ci, ri, cc, row, n);
                crate::assign::lemma_flat_index(ci, ri, asg.n_advice as int, n);
                assert(asg.advice@[ci * n + ri] == old(asg).advice@[ci * n + ri]);
            }
            let csel = cfg.selector.index as int;
            crate::assign::lemma_flat_index(csel, row, asg.n_selectors as int, n);
            assert(asg.selectors@[csel * n + row] == true);
            assert forall|ci: int, ri: int|
                0 <= ci < asg.n_selectors && 0 <= ri < asg.n_rows && !(ri == row && ci
                    == csel) implies asg.selector_at(ci, ri) == old(asg).selector_at(ci, ri) by {
                lemma_neq_idx(ci, ri, csel, row, n);
                crate::assign::lemma_flat_index(ci, ri, asg.n_selectors as int, n);
                assert(asg.selectors@[ci * n + ri] == old(asg).selectors@[ci * n + ri]);
            }
        }
        Ok((a_cell, b_cell, c_cell))
    }

    /// Fill one more chain row: copy the previous row's `b` and `c` into
    /// `a` and `b` of a fresh one-row region (registering the two copy
    /// constraints) and write their sum into `c`. Fails iff no row is
    /// left.
    pub fn assign_row(&self, asg: &mut Assignment, cs: &ConstraintSystem, prev_b: Cell, prev_c: Cell) -> (r: Result<Cell, Error>)
        requires
            old(asg).wf(),
            old(asg).shape_of(*cs),
            cs.wf(),
            fib_cfg_ok(self.config, *old(asg)),
            old(asg).cell_ok(prev_b),
            old(asg).cell_ok(prev_c),
            prev_b.row < old(asg).next_row,
            prev_c.row < old(asg).next_row,
            cs.eq_enabled(self.config.col_a),
            cs.eq_enabled(self.config.col_b),
            cs.eq_enabled(prev_b.col),
            cs.eq_enabled(prev_c.col),
        ensures
            final(asg).wf(),
            r is Ok <==> old(asg).next_row + 1 <= old(asg).n_rows,
            r is Err ==> *final(asg) == *old(asg) && r == Err::<Cell, Error>(
                Error::RegionBoundsError,
            ),
            r matches Ok(c_cell) ==> ({
                let row = old(asg).next_row as int;
                let cfg = self.config;
                let vb = old(asg).cell_value(prev_b);
                let vc = old(asg).cell_value(prev_c);
                &&& c_cell == (Cell { col: cfg.col_c, row: old(asg).next_row })
                &&& final(asg).advice@.len() == old(asg).advice@.len()
                &&& final(asg).advice_at(cfg.col_a.index as int, row) == vb
                &&& final(asg).advice_at(cfg.col_b.index as int, row) == vc
                &&& final(asg).advice_at(cfg.col_c.index as int, row) == v_add(vb, vc)
                &&& forall|ci: int, ri: int|
                    0 <= ci < final(asg).n_advice && 0 <= ri < final(asg).n_rows && !(ri == row
                        && (ci == cfg.col_a.index || ci == cfg.col_b.index || ci
                        == cfg.col_c.index)) ==> final(asg).advice_at(ci, ri) == old(asg).advice_at(ci, ri)
                &&& final(asg).selectors@.len() == old(asg).selectors@.len()
                &&& final(asg).selector_at(cfg.selector.index as int, row)
                &&& forall|ci: int, ri: int|
                    0 <= ci < final(asg).n_selectors && 0 <= ri < final(asg).n_rows && !(ri == row
                        && ci == cfg.selector.index) ==> final(asg).selector_at(ci, ri) == old(asg).selector_at(ci, ri)
                &&& final(asg).copies@ == old(asg).copies@.push(
                    (prev_b, Cell { col: cfg.col_a, row: old(asg).next_row }),
                ).push((prev_c, Cell { col: cfg.col_b, row: old(asg).next_row }))
                &&& final(asg).fixed == old(asg).fixed
                &&& final(asg).bindings == old(asg).bindings
                &&& final(asg).next_row == old(asg).next_row + 1
                &&& final(asg).n_rows == old(asg).n_rows
                &&& final(asg).n_advice == old(asg).n_advice
                &&& final(asg).n_fixed == old(asg).n_fixed
                &&& final(asg).n_instance == old(asg).n_instance
                &&& final(asg).n_selectors == old(asg).n_selectors
            }),
    {
        let region = match asg.assign_region("next row", 1) {
            Ok(reg) => reg,
            Err(e) => {
                return Err(e);
            },
        };
        let cfg = self.config;
        match asg.enable_selector(cfg.selector, region, 0) {
            Ok(_) => {},
            Err(e) => {
                return Err(e);
            },
        }
        let vb = asg.read_cell(prev_b);
        let vc = asg.read_cell(prev_c);
        let a_cell = match asg.copy_advice(cs, prev_b, region, cfg.col_a, 0) {
            Ok(c) => c,
            Err(e) => {
                return Err(e);
            },
        };
        let b_cell = match asg.copy_advice(cs, prev_c, region, cfg.col_b, 0) {
            Ok(c) => c,
            Err(e) => {
                return Err(e);
            },
        };
        let c_val = vb.add(vc);
        let c_cell = match asg.assign_advice(region, cfg.col_c, 0, c_val) {
            Ok(c) => c,
            Err(e) => {
                return Err(e);
            },
        };
        proof {
            let n = old(asg).n_rows as int;
            let row = old(asg).next_row as int;
            let ca = cfg.col_a.index as int;
            let cb = cfg.col_b.index as int;
            let cc = cfg.col_c.index as int;
            lemma_neq_idx(ca, row, cb, row, n);
            lemma_neq_idx(ca, row, cc, row, n);
            lemma_neq_idx(cb, row, cc, row, n);
            lemma_neq_idx(prev_b.col.index as int, prev_b.row as int, ca, row, n);
            lemma_neq_idx(prev_b.col.index as int, prev_b.row as int, cb, row, n);
            lemma_neq_idx(prev_b.col.index as int, prev_b.row as int, cc, row, n);
            lemma_neq_idx(prev_c.col.index as int, prev_c.row as int, ca, row, n);
            lemma_neq_idx(prev_c.col.index as int, prev_c.row as int, cb, row, n);
            lemma_neq_idx(prev_c.col.index as int, prev_c.row as int, cc, row, n);
            crate::assign::lemma_flat_index(ca, row, asg.n_advice as int, n);
            crate::assign::lemma_flat_index(cb, row, asg.n_advice as int, n);
            crate::assign::lemma_flat_index(cc, row, asg.n_advice as int, n);
            if prev_b.col.kind == ColKind::Advice {
                crate::assign::lemma_flat_index(prev_b.col.index as int, prev_b.row as int,
                    asg.n_advice as int, n);
            }
            if prev_c.col.kind == ColKind::Advice {
                crate::assign::lemma_flat_index(prev_c.col.index as int, prev_c.row as int,
                    asg.n_advice as int, n);
            }
            assert(asg.n_rows == old(asg).n_rows);
            assert(asg.advice@[ca * n + row] == old(asg).cell_value(prev_b));
            assert(asg.advice@[cb * n + row] == old(asg).cell_value(prev_c));
            assert(asg.advice@[cc * n + row] == v_add(
                old(asg).cell_value(prev_b),
                old(asg).cell_value(prev_c),
            ));
            assert forall|ci: int, ri: int|
                0 <= ci < asg.n_advice && 0 <= ri < asg.n_rows && !(ri == row && (ci == ca || ci
                    == cb || ci == cc)) implies asg.advice_at(ci, ri) == old(asg).advice_at(
                ci,
                ri,
            ) by {
                lemma_neq_idx(ci, ri, ca, row, n);
                lemma_neq_idx(ci, ri, cb, row, n);
                lemma_neq_idx(ci, ri, cc, row, n);
                crate::assign::lemma_flat_index(ci, ri, asg.n_advice as int, n);
                assert(asg.advice@[ci * n + ri] == old(asg).advice@[ci * n + ri]);
            }
            let csel = cfg.selector.index as int;
            crate::assign::lemma_flat_index(csel, row, asg.n_selectors as int, n);
            assert(asg.selectors@[csel * n + row] == true);
            assert forall|ci: int, ri: int|
                0 <= ci < asg.n_selectors && 0 <= ri < asg.n_rows && !(ri == row && ci
                    == csel) implies asg.selector_at(ci, ri) == old(asg).selector_at(ci, ri) by {
                lemma_neq_idx(ci, ri, csel, row, n);
                crate::assign::lemma_flat_index(ci, ri, asg.n_selectors as int, n);
                assert(asg.selectors@[ci * n + ri] == old(asg).selectors@[ci * n + ri]);
            }
        }
        Ok(c_cell)
    }

    /// Bind a chain cell to a row of the public instance column.
    pub fn expose_public(&self, asg: &mut Assignment, cs: &ConstraintSystem, cell: Cell, row: usize) -> (r: Result<(), Error>)
        requires
            old(asg).wf(),
            old(asg).shape_of(*cs),
            cs.wf(),
            fib_cfg_ok(self.config, *old(asg)),
            old(asg).cell_ok(cell),
            row < old(asg).n_rows,
        ensures
            final(asg).wf(),
            r is Ok <==> cs.eq_enabled(cell.col) && cs.eq_enabled(self.config.instance),
            r is Ok ==> final(asg).bindings@ == old(asg).bindings@.push(
                (cell, self.config.instance.index, row),
            ) && final(asg).advice == old(asg).advice && final(asg).fixed == old(asg).fixed
                && final(asg).selectors == old(asg).selectors && final(asg).copies == old(asg).copies && final(asg).next_row == old(asg).next_row && final(asg).n_rows == old(asg).n_rows && final(asg).n_advice == old(asg).n_advice && final(asg).n_fixed == old(asg).n_fixed && final(asg).n_instance == old(asg).n_instance && final(asg).n_selectors
                == old(asg).n_selectors,
            r is Err ==> *final(asg) == *old(asg) && r == Err::<(), Error>(
                Error::EqualityNotEnabledError,
            ),
    {
        asg.expose_public(cs, cell, self.config.instance, row)
    }
}

/// Distinct cells of the flat table have distinct indices.
proof fn lemma_neq_idx(c1: int, r1: int, c2: int, r2: int, n: int)
    requires
        0 <= r1 < n,
        0 <= r2 < n,
        0 <= c1,
        0 <= c2,
        c1 != c2 || r1 != r2,
    ensures
        c1 * n + r1 != c2 * n + r2,
{
    if c1 * n + r1 == c2 * n + r2 {
        crate::assign::lemma_flat_index_injective(c1, r1, c2, r2, n);
    }
}

/// The Fibonacci circuit: two seed values, bound with the declared output
/// to the public instance column. A shape-only twin carries unknowns
/// through the identical synthesis path.
pub struct MyCircuit {
    pub a: Value,
    pub b: Value,
}

impl MyCircuit {
    /// The shape-only twin of this circuit: both seeds unknown.
    pub fn without_witnesses(&self) -> (r: MyCircuit)
        ensures
            r.a is Unknown,
            r.b is Unknown,
    {
        MyCircuit { a: Value::Unknown, b: Value::Unknown }
    }

    /// Declare the circuit's columns on a fresh system and wire the chip.
    pub fn configure(meta: &mut ConstraintSystem) -> (r: FiboConfig)
        requires
            old(meta).wf(),
            old(meta).num_advice == 0,
            old(meta).num_fixed == 0,
            old(meta).num_instance == 0,
            old(meta).num_selectors == 0,
            old(meta).gates@.len() == 0,
        ensures
            final(meta).wf(),
            final(meta).num_advice == 3,
            final(meta).num_fixed == 0,
            final(meta).num_instance == 1,
            final(meta).num_selectors == 1,
            final(meta).gates@.len() == 1,
            r.col_a == (Column { kind: ColKind::Advice, index: 0 }),
            r.col_b == (Column { kind: ColKind::Advice, index: 1 }),
            r.col_c == (Column { kind: ColKind::Advice, index: 2 }),
            r.instance == (Column { kind: ColKind::Instance, index: 0 }),
            r.selector == (Column { kind: ColKind::Selector, index: 0 }),
            final(meta).eq_enabled(r.col_a),
            final(meta).eq_enabled(r.col_b),
            final(meta).eq_enabled(r.col_c),
            final(meta).eq_enabled(r.instance),
            final(meta).gates@[0].polys@.len() == 1,
            is_add_gate_shape(final(meta).gates@[0].polys@[0], r.selector, r.col_a, r.col_b,
                r.col_c),
    {
        let col_a = meta.add_advice_column();
        let col_b = meta.add_advice_column();
        let col_c = meta.add_advice_column();
        let instance = meta.add_instance_column();
        FiboChip::configure(meta, col_a, col_b, col_c, instance)
    }

    /// Drive the assignment engine: the first chain row from the seeds,
    /// seven more rows stitched with copy constraints, and three public
    /// bindings (the two seeds and the final accumulator). Fails iff the
    /// table has fewer than eight rows.
    pub fn synthesize(&self, config: FiboConfig, cs: &ConstraintSystem, asg: &mut Assignment) -> (r:
        Result<(), Error>)
        requires
            old(asg).wf(),
            old(asg).shape_of(*cs),
            cs.wf(),
            fib_cfg_ok(config, *old(asg)),
            cs.eq_enabled(config.col_a),
            cs.eq_enabled(config.col_b),
            cs.eq_enabled(config.col_c),
            cs.eq_enabled(config.instance),
            old(asg).next_row == 0,
            old(asg).bindings@.len() == 0,
            old(asg).copies@.len() == 0,
            forall|i: int|
                0 <= i < old(asg).advice@.len() ==> old(asg).advice@[i] == Value::Known(
                    Fe { rep: 0 },
                ),
            forall|i: int| 0 <= i < old(asg).selectors@.len() ==> old(asg).selectors@[i] == false,
            self.a.wf(),
            self.b.wf(),
        ensures
            final(asg).wf(),
            final(asg).shape_of(*cs),
            final(asg).n_rows == old(asg).n_rows,
            r is Ok <==> old(asg).n_rows >= 8,
            r matches Err(e) ==> e == Error::RegionBoundsError,
            r is Ok ==> ({
                &&& fib_tables_ok(config, self.a, self.b, *final(asg))
                &&& final(asg).bindings@.len() == 3
                &&& final(asg).bindings@[0] == (
                    Cell { col: config.col_a, row: 0 },
                    config.instance.index,
                    0usize,
                )
                &&& final(asg).bindings@[1] == (
                    Cell { col: config.col_b, row: 0 },
                    config.instance.index,
                    1usize,
                )
                &&& final(asg).bindings@[2] == (
                    Cell { col: config.col_c, row: 7 },
                    config.instance.index,
                    2usize,
                )
                &&& final(asg).n_rows == old(asg).n_rows
            }),
    {
        if asg.n_rows < 8 {
            return Err(Error::RegionBoundsError);
        }
        let chip = FiboChip::construct(config);
        let cells = match chip.assign_first_row(asg, self.a, self.b) {
            Ok(t) => t,
            Err(e) => {
                return Err(e);
            },
        };
        let (a_cell, b_cell, c_cell) = cells;
        match chip.expose_public(asg, cs, a_cell, 0) {
            Ok(_) => {},
            Err(e) => {
                return Err(e);
            },
        }
        match chip.expose_public(asg, cs, b_cell, 1) {
            Ok(_) => {},
            Err(e) => {
                return Err(e);
            },
        }
        proof {
            assert(vfib(self.a, self.b, 0) == self.a);
            assert(vfib(self.a, self.b, 1) == self.b);
            assert(vfib(self.a, self.b, 2) == v_add(self.a, self.b));
            let n = old(asg).n_rows as int;
            assert forall|ci: int, ri: int|
                0 <= ci < asg.n_advice && 0 <= ri < asg.n_rows && !(ri < 1 && (ci
                    == config.col_a.index || ci == config.col_b.index || ci
                    == config.col_c.index)) implies asg.advice_at(ci, ri) == Value::Known(
                Fe { rep: 0 },
            ) by {
                crate::assign::lemma_flat_index(ci, ri, asg.n_advice as int, n);
                assert(old(asg).advice_at(ci, ri) == Value::Known(Fe { rep: 0 }));
            }
            assert forall|ci: int, ri: int|
                0 <= ci < asg.n_selectors && 0 <= ri < asg.n_rows implies asg.selector_at(ci, ri)
                == (ci == config.selector.index && ri < 1) by {
                crate::assign::lemma_flat_index(ci, ri, asg.n_selectors as int, n);
                assert(old(asg).selector_at(ci, ri) == false);
            }
        }
        let mut prev_b = b_cell;
        let mut prev_c = c_cell;
        let mut i: usize = 3;
        while i < 10
            invariant
                asg.wf(),
                asg.shape_of(*cs),
                cs.wf(),
                fib_cfg_ok(config, *asg),
                cs.eq_enabled(config.col_a),
                cs.eq_enabled(config.col_b),
                cs.eq_enabled(config.col_c),
                cs.eq_enabled(config.instance),
                chip.config == config,
                3 <= i <= 10,
                asg.next_row == i - 2,
                asg.n_rows == old(asg).n_rows,
                asg.n_advice == old(asg).n_advice,
                asg.n_fixed == old(asg).n_fixed,
                asg.n_instance == old(asg).n_instance,
                asg.n_selectors == old(asg).n_selectors,
                asg.n_rows >= i - 2,
                self.a.wf(),
                self.b.wf(),
                asg.bindings@.len() == 2,
                asg.bindings@[0] == (Cell { col: config.col_a, row: 0 }, config.instance.index, 0usize),
                asg.bindings@[1] == (Cell { col: config.col_b, row: 0 }, config.instance.index, 1usize),
                prev_c == (Cell { col: config.col_c, row: (i - 3) as usize }),
                i == 3 ==> prev_b == (Cell { col: config.col_b, row: 0 }),
                i > 3 ==> prev_b == (Cell { col: config.col_c, row: (i - 4) as usize }),
                asg.cell_value(prev_b) == vfib(self.a, self.b, (i - 2) as nat),
                asg.cell_value(prev_c) == vfib(self.a, self.b, (i - 1) as nat),
                forall|ri: int|
                    0 <= ri < i - 2 ==> asg.advice_at(config.col_a.index as int, ri) == vfib(
                        self.a,
                        self.b,
                        ri as nat,
                    )
                        && asg.advice_at(config.col_b.index as int, ri) == vfib(
                        self.a,
                        self.b,
                        (ri + 1) as nat,
                    )
                        && asg.advice_at(config.col_c.index as int, ri) == vfib(
                        self.a,
                        self.b,
                        (ri + 2) as nat,
                    ),
                forall|ci: int, ri: int|
                    0 <= ci < asg.n_advice && 0 <= ri < asg.n_rows && !(ri < i - 2 && (ci
                        == config.col_a.index || ci == config.col_b.index || ci
                        == config.col_c.index)) ==> asg.advice_at(ci, ri) == Value::Known(
                        Fe { rep: 0 },
                    ),
                forall|ci: int, ri: int|
                    0 <= ci < asg.n_selectors && 0 <= ri < asg.n_rows ==> asg.selector_at(ci, ri)
                        == (ci == config.selector.index && ri < i - 2),
                asg.copies@.len() == 2 * (i - 3),
                forall|j: int| 0 <= j < asg.copies@.len() ==> asg.copies@[j] == fib_copy(config, j),
            decreases 10 - i,
        {
            let c_new = match chip.assign_row(asg, cs, prev_b, prev_c) {
                Ok(c) => c,
                Err(e) => {
                    return Err(e);
                },
            };
            proof {
                assert(vfib(self.a, self.b, i as nat) == v_add(
                    vfib(self.a, self.b, (i - 2) as nat),
                    vfib(self.a, self.b, (i - 1) as nat),
                ));
                let k = i as int - 3;
                assert((2 * k) % 2 == 0 && (2 * k) / 2 == k && (2 * k + 1) % 2 == 1 && (2 * k + 1)
                    / 2 == k) by (nonlinear_arith);
                assert(asg.copies@[2 * k] == fib_copy(config, 2 * k));
                assert(asg.copies@[2 * k + 1] == fib_copy(config, 2 * k + 1));
            }
            prev_b = prev_c;
            prev_c = c_new;
            i = i + 1;
        }
        let ghost pre = *asg;
        match chip.expose_public(asg, cs, prev_c, 2) {
            Ok(_) => {},
            Err(e) => {
                return Err(e);
            },
        }
        proof {
            assert forall|i2: int| 0 <= i2 < 8 implies (asg.advice_at(
                config.col_a.index as int,
                i2,
            ) == vfib(self.a, self.b, i2 as nat) && asg.advice_at(config.col_b.index as int, i2)
                == vfib(self.a, self.b, (i2 + 1) as nat) && asg.advice_at(
                config.col_c.index as int,
                i2,
            ) == vfib(self.a, self.b, (i2 + 2) as nat)) by {
                assert(pre.advice_at(config.col_a.index as int, i2) == vfib(self.a, self.b,
                    i2 as nat));
                assert(pre.advice_at(config.col_b.index as int, i2) == vfib(self.a, self.b,
                    (i2 + 1) as nat));
                assert(pre.advice_at(config.col_c.index as int, i2) == vfib(self.a, self.b,
                    (i2 + 2) as nat));
            }
            assert forall|ci: int, ri: int|
                0 <= ci < asg.n_advice && 0 <= ri < asg.n_rows && !(ri < 8 && (ci
                    == config.col_a.index || ci == config.col_b.index || ci
                    == config.col_c.index)) implies asg.advice_at(ci, ri) == Value::Known(
                Fe { rep: 0 },
            ) by {
                assert(pre.advice_at(ci, ri) == Value::Known(Fe { rep: 0 }));
            }
            assert forall|ci: int, ri: int|
                0 <= ci < asg.n_selectors && 0 <= ri < asg.n_rows implies asg.selector_at(ci, ri)
                == (ci == config.selector.index && ri < 8) by {
                assert(pre.selector_at(ci, ri) == (ci == config.selector.index && ri < 8));
            }
            assert(fib_tables_ok(config, self.a, self.b, *asg));
        }
        Ok(())
    }
}


/// The chain over known seeds stays known and reduced.
pub proof fn lemma_vfib_known(a: Value, b: Value, i: nat)
    requires
        a is Known,
        b is Known,
        a.wf(),
        b.wf(),
    ensures
        vfib(a, b, i) is Known,
        vfib(a, b, i).wf(),
    decreases i,
{
    if i >= 2 {
        lemma_vfib_known(a, b, (i - 2) as nat);
        lemma_vfib_known(a, b, (i - 1) as nat);
    }
}

/// Evaluation of the addition gate polynomial, unfolded along its pinned
/// shape: the selector query times `a + b - c`.
proof fn lemma_add_gate_eval(
    asg: Assignment,
    inst: Seq<Vec<Fe>>,
    p: Expr,
    sel: Column,
    ca: Column,
    cb: Column,
    cc: Column,
    row: int,
)
    requires
        is_add_gate_shape(p, sel, ca, cb, cc),
    ensures
        eval_expr(asg, inst, p, row) == v_mul(
            query_value(asg, inst, sel, row),
            v_add(
                v_add(query_value(asg, inst, ca, row), query_value(asg, inst, cb, row)),
                v_neg(query_value(asg, inst, cc, row)),
            ),
        ),
{
    let rest = *(p->Mul_1);
    let ab = *(rest->Add_0);
    let negc = *(rest->Add_1);
    assert(eval_expr(asg, inst, *(p->Mul_0), row) == query_value(asg, inst, sel, row));
    assert(eval_expr(asg, inst, *(ab->Add_0), row) == query_value(asg, inst, ca, row));
    assert(eval_expr(asg, inst, *(ab->Add_1), row) == query_value(asg, inst, cb, row));
    assert(eval_expr(asg, inst, *(negc->Neg_0), row) == query_value(asg, inst, cc, row));
    assert(eval_expr(asg, inst, ab, row) == v_add(
        query_value(asg, inst, ca, row),
        query_value(asg, inst, cb, row),
    ));
    assert(eval_expr(asg, inst, negc, row) == v_neg(query_value(asg, inst, cc, row)));
    assert(eval_expr(asg, inst, rest, row) == v_add(
        v_add(query_value(asg, inst, ca, row), query_value(asg, inst, cb, row)),
        v_neg(query_value(asg, inst, cc, row)),
    ));
}

/// Completeness of the Fibonacci circuit: the honest witness satisfies
/// every gate at every row, every stitching copy constraint, and the
/// three public bindings, whenever the declared instance values are the
/// two seeds and the chain value at position 9.
#[verifier::rlimit(100)]
proof fn lemma_fib_satisfied(
    cs: ConstraintSystem,
    asg: Assignment,
    inst: Seq<Vec<Fe>>,
    circuit: MyCircuit,
    n_rows: int,
)
    requires
        fib_built(cs, asg, circuit, n_rows),
        inst_ok(asg, inst),
        circuit.a is Known,
        circuit.b is Known,
        circuit.a.wf(),
        circuit.b.wf(),
        8 <= n_rows,
        Value::Known(inst[0]@[0]) == circuit.a,
        Value::Known(inst[0]@[1]) == circuit.b,
        Value::Known(inst[0]@[2]) == vfib(circuit.a, circuit.b, 9),
    ensures
        satisfied(cs, asg, inst),
{
    let a = circuit.a;
    let b = circuit.b;
    let cfg = FiboConfig {
        col_a: Column { kind: ColKind::Advice, index: 0 },
        col_b: Column { kind: ColKind::Advice, index: 1 },
        col_c: Column { kind: ColKind::Advice, index: 2 },
        selector: Column { kind: ColKind::Selector, index: 0 },
        instance: Column { kind: ColKind::Instance, index: 0 },
    };
    assert forall|i: nat| vfib(a, b, i) is Known && vfib(a, b, i).wf() by {
        lemma_vfib_known(a, b, i);
    }
    assert forall|row: int, g: int, p: int|
        0 <= row < asg.n_rows && 0 <= g < cs.gates@.len() && 0 <= p
            < cs.gates@[g].polys@.len() implies #[trigger] gate_poly_ok(
        asg,
        inst,
        cs.gates@[g].polys@[p],
        row,
    ) by {
        lemma_add_gate_eval(asg, inst, cs.gates@[0].polys@[0], cfg.selector, cfg.col_a, cfg.col_b,
            cfg.col_c, row);
        let sv = query_value(asg, inst, cfg.selector, row);
        if row < 8 {
            assert(sv == Value::Known(Fe { rep: 1 }));
            let x = vfib(a, b, row as nat)->Known_0.rep;
            let y = vfib(a, b, (row + 1) as nat)->Known_0.rep;
            assert(vfib(a, b, (row + 2) as nat) == v_add(
                vfib(a, b, row as nat),
                vfib(a, b, (row + 1) as nat),
            ));
            assert(query_value(asg, inst, cfg.col_c, row) == Value::Known(Fe { rep: fadd(x, y) }));
            lemma_add_neg(fadd(x, y));
            assert(fmul(1, 0) == 0);
        } else {
            assert(sv == Value::Known(Fe { rep: 0 }));
            assert(query_value(asg, inst, cfg.col_a, row) is Known);
            assert(query_value(asg, inst, cfg.col_b, row) is Known);
            assert(query_value(asg, inst, cfg.col_c, row) is Known);
            let body = v_add(
                v_add(query_value(asg, inst, cfg.col_a, row), query_value(asg, inst, cfg.col_b, row)),
                v_neg(query_value(asg, inst, cfg.col_c, row)),
            );
            assert(body is Known);
            assert(eval_expr(asg, inst, cs.gates@[0].polys@[0], row) == Value::Known(
                Fe { rep: fmul(0, body->Known_0.rep) },
            ));
            assert(fmul(0, body->Known_0.rep) == 0);
        }
    }
    assert forall|j: int| 0 <= j < asg.copies@.len() implies copy_ok(
        asg,
        #[trigger] asg.copies@[j],
    ) by {
        let k = j / 2;
        assert(0 <= k < 7);
        assert(asg.copies@[j] == fib_copy(cfg, j));
        if j % 2 == 0 {
            if k == 0 {
                assert(asg.cell_value(Cell { col: cfg.col_b, row: 0 }) == vfib(a, b, 1));
            } else {
                assert(asg.cell_value(Cell { col: cfg.col_c, row: (k - 1) as usize }) == vfib(
                    a,
                    b,
                    (k + 1) as nat,
                ));
            }
            assert(asg.cell_value(Cell { col: cfg.col_a, row: (k + 1) as usize }) == vfib(
                a,
                b,
                (k + 1) as nat,
            ));
        } else {
            assert(asg.cell_value(Cell { col: cfg.col_c, row: k as usize }) == vfib(
                a,
                b,
                (k + 2) as nat,
            ));
            assert(asg.cell_value(Cell { col: cfg.col_b, row: (k + 1) as usize }) == vfib(
                a,
                b,
                (k + 2) as nat,
            ));
        }
    }
    assert forall|j: int| 0 <= j < asg.bindings@.len() implies binding_ok(
        asg,
        inst,
        #[trigger] asg.bindings@[j],
    ) by {
        assert(asg.cell_value(Cell { col: cfg.col_a, row: 0 }) == vfib(a, b, 0));
        assert(asg.cell_value(Cell { col: cfg.col_b, row: 0 }) == vfib(a, b, 1));
        assert(asg.cell_value(Cell { col: cfg.col_c, row: 7 }) == vfib(a, b, 9));
    }
}

/// The system and assignment `run_fib` hands to the checker, pinned
/// completely: the one addition gate over the concrete columns, the full
/// value tables, the stitching copies and the three public bindings.
pub open spec fn fib_built(
    cs: ConstraintSystem,
    asg: Assignment,
    circuit: MyCircuit,
    n_rows: int,
) -> bool {
    let cfg = FiboConfig {
        col_a: Column { kind: ColKind::Advice, index: 0 },
        col_b: Column { kind: ColKind::Advice, index: 1 },
        col_c: Column { kind: ColKind::Advice, index: 2 },
        selector: Column { kind: ColKind::Selector, index: 0 },
        instance: Column { kind: ColKind::Instance, index: 0 },
    };
    &&& cs.wf()
    &&& cs.num_advice == 3 && cs.num_fixed == 0 && cs.num_instance == 1 && cs.num_selectors == 1
    &&& cs.gates@.len() == 1
    &&& cs.gates@[0].polys@.len() == 1
    &&& is_add_gate_shape(cs.gates@[0].polys@[0], cfg.selector, cfg.col_a, cfg.col_b, cfg.col_c)
    &&& asg.wf() && asg.shape_of(cs) && asg.n_rows == n_rows
    &&& fib_tables_ok(cfg, circuit.a, circuit.b, asg)
    &&& asg.bindings@.len() == 3
    &&& asg.bindings@[0] == ((Cell { col: cfg.col_a, row: 0 }, 0usize, 0usize))
    &&& asg.bindings@[1] == ((Cell { col: cfg.col_b, row: 0 }, 0usize, 1usize))
    &&& asg.bindings@[2] == ((Cell { col: cfg.col_c, row: 7 }, 0usize, 2usize))
}

/// Configure, synthesize and check the Fibonacci circuit against a public
/// instance column `[a, b, out]` in a table of `n_rows` rows (callers
/// typically pass a power of two). When the verdict is success, the chain
/// value at position 9 provably equals the declared output.
pub fn run_fib(n_rows: usize, circuit: &MyCircuit, public: &Vec<Fe>) -> (r: Result<
    CheckResult,
    Error,
>)
    requires
        1 <= n_rows,
        3 * n_rows <= usize::MAX,
        public@.len() == 3,
        forall|i: int| 0 <= i < 3 ==> (#[trigger] public@[i]).wf(),
        circuit.a.wf(),
        circuit.b.wf(),
    ensures
        r is Ok <==> n_rows >= 8,
        r matches Ok(cr) ==> (cr == CheckResult::Satisfied ==> vfib(circuit.a, circuit.b, 9)
            == Value::Known(public@[2])),
        r matches Ok(cr) ==> ((circuit.a is Known && circuit.b is Known) ==> (cr
            == CheckResult::Satisfied <==> (Value::Known(public@[0]) == circuit.a
            && Value::Known(public@[1]) == circuit.b && Value::Known(public@[2]) == vfib(
            circuit.a,
            circuit.b,
            9,
        )))),
        r matches Ok(cr) ==> exists|cs: ConstraintSystem, asg: Assignment, inst: Seq<Vec<Fe>>|
            #[trigger] fib_built(cs, asg, *circuit, n_rows as int) && #[trigger] crate::checker::inst_padded(
                inst,
                public@,
                n_rows as int,
            ) && cr == check_spec(cs, asg, inst),
{
    let mut cs = ConstraintSystem::new();
    let config = MyCircuit::configure(&mut cs);
    let mut asg = crate::assign::Assignment::new(&cs, n_rows);
    match circuit.synthesize(config, &cs, &mut asg) {
        Ok(_) => {},
        Err(e) => {
            return Err(e);
        },
    }
    let inst_col = crate::checker::pad_column(public, n_rows);
    let mut inst: Vec<Vec<Fe>> = Vec::new();
    inst.push(inst_col);
    let result = check(&cs, &asg, &inst);
    proof {
        if result == CheckResult::Satisfied {
            assert(satisfied(cs, asg, inst@));
            let b2 = asg.bindings@[2];
            assert(binding_ok(asg, inst@, b2));
            assert(asg.cell_value(Cell { col: config.col_c, row: 7 }) == Value::Known(
                inst@[0]@[2],
            ));
            assert(inst@[0]@[2] == public@[2]);
        }
        if circuit.a is Known && circuit.b is Known {
            if result == CheckResult::Satisfied {
                assert(binding_ok(asg, inst@, asg.bindings@[0]));
                assert(binding_ok(asg, inst@, asg.bindings@[1]));
                assert(asg.cell_value(Cell { col: config.col_a, row: 0 }) == Value::Known(
                    inst@[0]@[0],
                ));
                assert(asg.cell_value(Cell { col: config.col_b, row: 0 }) == Value::Known(
                    inst@[0]@[1],
                ));
                assert(Value::Known(public@[0]) == circuit.a);
                assert(Value::Known(public@[1]) == circuit.b);
            }
            if Value::Known(public@[0]) == circuit.a && Value::Known(public@[1]) == circuit.b
                && Value::Known(public@[2]) == vfib(circuit.a, circuit.b, 9) {
                lemma_fib_satisfied(cs, asg, inst@, *circuit, n_rows as int);
                assert(result == CheckResult::Satisfied);
            }
        }
        let ghost cfg2 = FiboConfig {
            col_a: Column { kind: ColKind::Advice, index: 0 },
            col_b: Column { kind: ColKind::Advice, index: 1 },
            col_c: Column { kind: ColKind::Advice, index: 2 },
            selector: Column { kind: ColKind::Selector, index: 0 },
            instance: Column { kind: ColKind::Instance, index: 0 },
        };
        assert(cfg2 == config);
        assert(cs.wf() && cs.num_advice == 3 && cs.num_fixed == 0 && cs.num_instance == 1
            && cs.num_selectors == 1);
        assert(cs.gates@.len() == 1 && cs.gates@[0].polys@.len() == 1);
        assert(is_add_gate_shape(cs.gates@[0].polys@[0], cfg2.selector, cfg2.col_a, cfg2.col_b,
            cfg2.col_c));
        assert(asg.wf() && asg.shape_of(cs) && asg.n_rows == n_rows);
        assert(fib_tables_ok(cfg2, circuit.a, circuit.b, asg));
        assert(asg.bindings@.len() == 3);
        assert(asg.bindings@[0] == ((Cell { col: cfg2.col_a, row: 0 }, 0usize, 0usize)));
        assert(asg.bindings@[1] == ((Cell { col: cfg2.col_b, row: 0 }, 0usize, 1usize)));
        assert(asg.bindings@[2] == ((Cell { col: cfg2.col_c, row: 7 }, 0usize, 2usize)));
        assert(fib_built(cs, asg, *circuit, n_rows as int));
        assert(crate::checker::inst_padded(inst@, public@, n_rows as int));
    }
    Ok(result)
}

} // verus!
