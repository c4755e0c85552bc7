//! The zero-check gadget.
//!
//! Given a target expression `value`, the gadget allocates one helper
//! advice column `inv`, registers a single-polynomial gate
//! `q_enable * value * (1 - value * inv) == 0`, and exports the output
//! expression `1 - value * inv`: whenever that constraint holds, the output is 1
//! if `value` is the additive identity and 0 otherwise. Its `assign`
//! writes the true inverse into the helper cell when the value is nonzero
//! and a conventional zero otherwise, and never fails on a non-invertible
//! value: a constraint, not the inversion routine, enforces correctness.

use crate::assign::{Assignment, Region};
use crate::expr::{ColKind, Column, Expr};
use crate::checker::{eval_expr, query_value};
use crate::field::{fadd, fmul, fneg, fsub, lemma_sub_as_neg, Fe, MODULUS};
use crate::value::{v_mul, v_neg};
use crate::system::{lemma_expr_ok_monotone, ConstraintSystem, Error};
use crate::value::Value;
use vstd::prelude::*;

verus! {

/// The shape of the exported output expression: `1 - value * inv`,
/// spelled with the tree vocabulary as `1 + (-(value * inv))`.
pub open spec fn is_output_shape(e: Expr, value: Expr, inv_col: Column) -> bool {
    match e {
        Expr::Add(one, n) => match (*one, *n) {
            (Expr::Constant(f), Expr::Neg(m)) => f.rep == 1 && match *m {
                Expr::Mul(v, q) => *v == value && *q == Expr::Query(inv_col, 0),
                _ => false,
            },
            _ => false,
        },
        _ => false,
    }
}

/// The target expression a zero-check output speaks of: the first
/// factor under the negated product of `1 - target * inv`.
pub open spec fn output_target(e: Expr) -> Expr {
    let n = *(e->Add_1);
    let m = *(n->Neg_0);
    *(m->Mul_0)
}

/// The shape of the registered gate polynomial:
/// `q_enable * value * (1 - value * inv)`.
pub open spec fn is_gate_shape(p: Expr, q_enable: Expr, value: Expr, inv_col: Column) -> bool {
    match p {
        Expr::Mul(qv, out) => match *qv {
            Expr::Mul(q, v) => *q == q_enable && *v == value && is_output_shape(
                *out,
                value,
                inv_col,
            ),
            _ => false,
        },
        _ => false,
    }
}

/// Configuration of one zero-check instance: its helper column and its
/// exported output expression.
#[derive(Debug)]
pub struct IsZeroConfig {
    pub value_inv: Column,
    pub is_zero_expr: Expr,
}

impl Clone for IsZeroConfig {
    /// A clone is spec-equal to the original configuration.
    fn clone(&self) -> (r: IsZeroConfig)
        ensures
            r == *self,
    {
        IsZeroConfig { value_inv: self.value_inv, is_zero_expr: self.is_zero_expr.clone() }
    }
}

impl IsZeroConfig {
    /// The output expression, for enclosing gates to reference.
    pub fn expr(&self) -> (r: Expr)
        ensures
            r == self.is_zero_expr,
    {
        self.is_zero_expr.clone()
    }
}

/// A zero-check chip bound to its configuration.
pub struct IsZeroChip {
    pub config: IsZeroConfig,
}

impl IsZeroChip {
    pub fn construct(config: IsZeroConfig) -> (r: IsZeroChip)
        ensures
            r.config == config,
    {
        IsZeroChip { config }
    }

    /// Allocate the helper column and register the zero-check gate. The
    /// caller supplies the enabling expression and the target expression,
    /// both already well formed against the system.
    pub fn configure(meta: &mut ConstraintSystem, q_enable: Expr, value: Expr) -> (r: IsZeroConfig)
        requires
            old(meta).wf(),
            old(meta).expr_ok(q_enable),
            old(meta).expr_ok(value),
            old(meta).num_advice < usize::MAX,
        ensures
            final(meta).wf(),
            r.value_inv == (Column { kind: ColKind::Advice, index: old(meta).num_advice }),
            is_output_shape(r.is_zero_expr, value, r.value_inv),
            final(meta).expr_ok(r.is_zero_expr),
            final(meta).num_advice == old(meta).num_advice + 1,
            final(meta).num_fixed == old(meta).num_fixed,
            final(meta).num_instance == old(meta).num_instance,
            final(meta).num_selectors == old(meta).num_selectors,
            final(meta).eq_advice@ == old(meta).eq_advice@.push(false),
            final(meta).eq_fixed == old(meta).eq_fixed,
            final(meta).eq_instance == old(meta).eq_instance,
            final(meta).gates@.len() == old(meta).gates@.len() + 1,
            forall|i: int|
                0 <= i < old(meta).gates@.len() ==> final(meta).gates@[i] == old(meta).gates@[i],
            ({
                let g = final(meta).gates@[final(meta).gates@.len() - 1];
                g.name == "is_zero" && g.polys@.len() == 1 && is_gate_shape(
                    g.polys@[0],
                    q_enable,
                    value,
                    r.value_inv,
                )
            }),
            output_target(r.is_zero_expr) == value,
    {
        let value_inv = meta.add_advice_column();
        proof {
            lemma_expr_ok_monotone(*old(meta), *meta, q_enable);
            lemma_expr_ok_monotone(*old(meta), *meta, value);
        }
        let inv_query = Expr::query(value_inv, 0);
        let is_zero_expr = Expr::constant(Fe { rep: 1 }).sub(value.clone().mul(inv_query));
        let poly = q_enable.mul(value.clone()).mul(is_zero_expr.clone());
        proof {
            let qv = *(poly->Mul_0);
            let out = *(poly->Mul_1);
            assert(*(qv->Mul_0) == q_enable);
            assert(*(qv->Mul_1) == value);
            assert(meta.expr_ok(qv));
            assert(meta.expr_ok(*(out->Add_0)));
            let n = *(out->Add_1);
            let m = *(n->Neg_0);
            assert(*(m->Mul_0) == value);
            assert(*(m->Mul_1) == Expr::Query(value_inv, 0));
            assert(meta.expr_ok(*(m->Mul_1)));
            assert(meta.expr_ok(m));
            assert(meta.expr_ok(n));
            assert(meta.expr_ok(out));
            assert(meta.expr_ok(poly));
            assert(meta.expr_ok(is_zero_expr));
        }
        let ghost mid = *meta;
        let mut polys: Vec<Expr> = Vec::new();
        polys.push(poly);
        meta.create_gate("is_zero", polys);
        proof {
            lemma_expr_ok_monotone(mid, *meta, is_zero_expr);
        }
        IsZeroConfig { value_inv, is_zero_expr }
    }

    /// Write the helper cell for one row: the inverse of the value when it
    /// is known and nonzero, the additive identity when it is known zero,
    /// and the unknown placeholder during a shape-only pass. Returns the
    /// gadget's output for the caller: 1 if the value is zero, else 0.
    pub fn assign(&self, asg: &mut Assignment, region: Region, offset: usize, value: Value) -> (r:
        Result<Value, Error>)
        requires
            old(asg).wf(),
            self.config.value_inv.kind == ColKind::Advice,
            self.config.value_inv.index < old(asg).n_advice,
            region.start + region.len <= old(asg).n_rows,
            value.wf(),
        ensures
            final(asg).wf(),
            r is Ok <==> offset < region.len,
            offset >= region.len ==> *final(asg) == *old(asg) && r == Err::<Value, Error>(
                Error::RegionBoundsError,
            ),
            offset < region.len ==> ({
                let idx = self.config.value_inv.index * old(asg).n_rows + region.start + offset;
                let cell = final(asg).advice@[idx];
                &&& r == Ok::<Value, Error>(
                    match value {
                        Value::Known(f) => Value::Known(
                            Fe { rep: if f.rep == 0 { 1 } else { 0 } },
                        ),
                        Value::Unknown => Value::Unknown,
                    },
                )
                &&& final(asg).advice@.len() == old(asg).advice@.len()
                &&& forall|j: int|
                    0 <= j < old(asg).advice@.len() && j != idx ==> final(asg).advice@[j] == old(
                        asg,
                    ).advice@[j]
                &&& (value is Unknown ==> cell is Unknown)
                &&& (value is Known && value->Known_0.rep == 0 ==> cell == Value::Known(
                    Fe { rep: 0 },
                ))
                &&& (value is Known && value->Known_0.rep != 0 ==> cell is Known && fmul(
                    cell->Known_0.rep,
                    value->Known_0.rep,
                ) == 1)
                &&& final(asg).fixed == old(asg).fixed
                &&& final(asg).selectors == old(asg).selectors
                &&& final(asg).copies == old(asg).copies
                &&& final(asg).bindings == old(asg).bindings
                &&& final(asg).next_row == old(asg).next_row
                &&& final(asg).n_rows == old(asg).n_rows
                &&& final(asg).n_advice == old(asg).n_advice
                &&& final(asg).n_fixed == old(asg).n_fixed
                &&& final(asg).n_instance == old(asg).n_instance
                &&& final(asg).n_selectors == old(asg).n_selectors
            }),
    {
        let value_inv = match value {
            Value::Known(f) => Value::Known(f.invert()),
            Value::Unknown => Value::Unknown,
        };
        let res = asg.assign_advice(region, self.config.value_inv, offset, value_inv);
        match res {
            Ok(_) => {
                proof {
                    crate::assign::lemma_flat_index(self.config.value_inv.index as int,
                        (region.start + offset) as int, asg.n_advice as int, asg.n_rows as int);
                }
                Ok(
                match value {
                    Value::Known(f) => Value::Known(Fe { rep: if f.is_zero() { 1 } else { 0 } }),
                    Value::Unknown => Value::Unknown,
                },
            )
            },
            Err(e) => Err(e),
        }
    }
}

/// Zero-check correctness: for every field value `e` and helper value
/// `inv` as the gadget assigns it (the true inverse when `e` is nonzero,
/// anything at all when `e` is zero), the output `1 - e * inv` equals 1
/// iff `e` is the additive identity, and 0 otherwise.
pub proof fn lemma_zero_check(e: u64, inv: u64)
    requires
        e < MODULUS,
        inv < MODULUS,
        e != 0 ==> fmul(inv, e) == 1,
    ensures
        fsub(1, fmul(e, inv)) == if e == 0 {
            1u64
        } else {
            0u64
        },
{
    let p: int = MODULUS as int;
    if e == 0 {
        assert(fmul(0, inv) == 0) by {
            assert((0 * inv) % p == 0);
        }
        assert(fsub(1, 0) == 1);
    } else {
        assert(e * inv == inv * e) by (nonlinear_arith);
        assert(fmul(e, inv) == 1);
        assert(fsub(1, 1) == 0);
    }
}

/// Zero-check correctness at the exported expression: over any
/// assignment in which the target expression evaluates to the known
/// value `e` and the helper cell holds what the gadget assigns for `e`
/// (the true inverse when `e` is nonzero, anything at all when `e` is
/// zero), the output expression evaluates to 1 iff `e` is the additive
/// identity, and to 0 otherwise.
pub proof fn lemma_output_eval(
    asg: crate::assign::Assignment,
    inst: Seq<Vec<Fe>>,
    out: Expr,
    value: Expr,
    inv_col: Column,
    row: int,
    e: u64,
    inv: u64,
)
    requires
        is_output_shape(out, value, inv_col),
        eval_expr(asg, inst, value, row) == Value::Known(Fe { rep: e }),
        query_value(asg, inst, inv_col, row) == Value::Known(Fe { rep: inv }),
        e < MODULUS,
        inv < MODULUS,
        e != 0 ==> fmul(inv, e) == 1,
    ensures
        eval_expr(asg, inst, out, row) == Value::Known(
            Fe {
                rep: if e == 0 {
                    1u64
                } else {
                    0u64
                },
            },
        ),
{
    let one = *out->Add_0;
    let n = *out->Add_1;
    let m = *n->Neg_0;
    let q = *m->Mul_1;
    assert(eval_expr(asg, inst, one, row) == Value::Known(Fe { rep: 1 }));
    assert(eval_expr(asg, inst, q, row) == Value::Known(Fe { rep: inv }));
    assert(eval_expr(asg, inst, m, row) == v_mul(
        Value::Known(Fe { rep: e }),
        Value::Known(Fe { rep: inv }),
    ));
    assert(eval_expr(asg, inst, n, row) == v_neg(Value::Known(Fe { rep: fmul(e, inv) })));
    assert(eval_expr(asg, inst, out, row) == Value::Known(
        Fe { rep: fadd(1, fneg(fmul(e, inv))) },
    ));
    lemma_sub_as_neg(1, fmul(e, inv));
    lemma_zero_check(e, inv);
}

} // verus!
