//! The constraint system: the circuit's *shape*.
//!
//! Columns, selectors, equality participation and gates are declared here,
//! once per circuit type and independently of any witness. A gate stores a
//! list of selector-weighted polynomial expressions; the invariant of the
//! whole system is that every stored expression only queries columns that
//! have been declared.

use crate::expr::{ColKind, Column, Expr};
use vstd::prelude::*;

verus! {

/// A structural error raised while building a circuit or a witness.
#[derive(Clone, Copy, Debug, PartialEq, Eq, Structural)]
pub enum Error {
    /// A concrete value was required but an unknown was met.
    ShapeError,
    /// A row or cell was touched outside its region's declared extent.
    RegionBoundsError,
    /// A copy constraint referenced a column without equality enabled.
    EqualityNotEnabledError,
    /// A synthesis step could not produce its result (a game with no
    /// rounds has no output cell to return).
    Synthesis,
}

/// A named set of polynomial constraints, conditionally enforced by the
/// selector expressions its author wove into each polynomial.
#[derive(Debug)]
pub struct Gate {
    pub name: &'static str,
    pub polys: Vec<Expr>,
}

/// The declared shape of a circuit.
#[derive(Debug)]
pub struct ConstraintSystem {
    pub num_advice: usize,
    pub num_fixed: usize,
    pub num_instance: usize,
    pub num_selectors: usize,
    /// Equality (copy-constraint) participation, one flag per column.
    pub eq_advice: Vec<bool>,
    pub eq_fixed: Vec<bool>,
    pub eq_instance: Vec<bool>,
    pub gates: Vec<Gate>,
}

impl ConstraintSystem {
    /// The column has been declared in this system.
    pub open spec fn col_declared(self, c: Column) -> bool {
        match c.kind {
            ColKind::Advice => c.index < self.num_advice,
            ColKind::Fixed => c.index < self.num_fixed,
            ColKind::Instance => c.index < self.num_instance,
            ColKind::Selector => c.index < self.num_selectors,
        }
    }

    /// The column takes part in copy constraints. Selectors never do.
    pub open spec fn eq_enabled(self, c: Column) -> bool {
        match c.kind {
            ColKind::Advice => c.index < self.eq_advice@.len() && self.eq_advice@[c.index as int],
            ColKind::Fixed => c.index < self.eq_fixed@.len() && self.eq_fixed@[c.index as int],
            ColKind::Instance => c.index < self.eq_instance@.len() && self.eq_instance@[
                c.index as int
            ],
            ColKind::Selector => false,
        }
    }

    /// The expression only queries declared columns and holds reduced
    /// constants.
    pub open spec fn expr_ok(self, e: Expr) -> bool
        decreases e,
    {
        match e {
            Expr::Constant(f) => f.wf(),
            Expr::Query(c, _) => self.col_declared(c),
            Expr::Neg(a) => self.expr_ok(*a),
            Expr::Add(a, b) => self.expr_ok(*a) && self.expr_ok(*b),
            Expr::Mul(a, b) => self.expr_ok(*a) && self.expr_ok(*b),
        }
    }

    pub open spec fn gate_ok(self, g: Gate) -> bool {
        forall|i: int| 0 <= i < g.polys@.len() ==> self.expr_ok(#[trigger] g.polys@[i])
    }

    /// Internal consistency: flag vectors track the column counts and every
    /// registered gate only speaks of declared columns.
    pub open spec fn wf(self) -> bool {
        &&& self.eq_advice@.len() == self.num_advice
        &&& self.eq_fixed@.len() == self.num_fixed
        &&& self.eq_instance@.len() == self.num_instance
        &&& forall|i: int| 0 <= i < self.gates@.len() ==> self.gate_ok(#[trigger] self.gates@[i])
    }

    /// An empty system: no columns, no gates.
    pub fn new() -> (r: ConstraintSystem)
        ensures
            r.wf(),
            r.num_advice == 0,
            r.num_fixed == 0,
            r.num_instance == 0,
            r.num_selectors == 0,
            r.gates@.len() == 0,
    {
        ConstraintSystem {
            num_advice: 0,
            num_fixed: 0,
            num_instance: 0,
            num_selectors: 0,
            eq_advice: Vec::new(),
            eq_fixed: Vec::new(),
            eq_instance: Vec::new(),
            gates: Vec::new(),
        }
    }

    pub fn add_advice_column(&mut self) -> (r: Column)
        requires
            old(self).wf(),
            old(self).num_advice < usize::MAX,
        ensures
            final(self).wf(),
            r == (Column { kind: ColKind::Advice, index: old(self).num_advice }),
            final(self).num_advice == old(self).num_advice + 1,
            final(self).eq_advice@ == old(self).eq_advice@.push(false),
            final(self).num_fixed == old(self).num_fixed,
            final(self).num_instance == old(self).num_instance,
            final(self).num_selectors == old(self).num_selectors,
            final(self).eq_fixed == old(self).eq_fixed,
            final(self).eq_instance == old(self).eq_instance,
            final(self).gates == old(self).gates,
    {
        let index = self.num_advice;
        self.num_advice = self.num_advice + 1;
        self.eq_advice.push(false);
        proof {
            assert forall|i: int| 0 <= i < self.gates@.len() implies self.gate_ok(
                #[trigger] self.gates@[i],
            ) by {
                lemma_gate_ok_monotone(*old(self), *self, self.gates@[i]);
            }
        }
        Column { kind: ColKind::Advice, index }
    }

    pub fn add_fixed_column(&mut self) -> (r: Column)
        requires
            old(self).wf(),
            old(self).num_fixed < usize::MAX,
        ensures
            final(self).wf(),
            r == (Column { kind: ColKind::Fixed, index: old(self).num_fixed }),
            final(self).num_fixed == old(self).num_fixed + 1,
            final(self).eq_fixed@ == old(self).eq_fixed@.push(false),
            final(self).num_advice == old(self).num_advice,
            final(self).num_instance == old(self).num_instance,
            final(self).num_selectors == old(self).num_selectors,
            final(self).eq_advice == old(self).eq_advice,
            final(self).eq_instance == old(self).eq_instance,
            final(self).gates == old(self).gates,
    {
        let index = self.num_fixed;
        self.num_fixed = self.num_fixed + 1;
        self.eq_fixed.push(false);
        proof {
            assert forall|i: int| 0 <= i < self.gates@.len() implies self.gate_ok(
                #[trigger] self.gates@[i],
            ) by {
                lemma_gate_ok_monotone(*old(self), *self, self.gates@[i]);
            }
        }
        Column { kind: ColKind::Fixed, index }
    }

    pub fn add_instance_column(&mut self) -> (r: Column)
        requires
            old(self).wf(),
            old(self).num_instance < usize::MAX,
        ensures
            final(self).wf(),
            r == (Column { kind: ColKind::Instance, index: old(self).num_instance }),
            final(self).num_instance == old(self).num_instance + 1,
            final(self).eq_instance@ == old(self).eq_instance@.push(false),
            final(self).num_advice == old(self).num_advice,
            final(self).num_fixed == old(self).num_fixed,
            final(self).num_selectors == old(self).num_selectors,
            final(self).eq_advice == old(self).eq_advice,
            final(self).eq_fixed == old(self).eq_fixed,
            final(self).gates == old(self).gates,
    {
        let index = self.num_instance;
        self.num_instance = self.num_instance + 1;
        self.eq_instance.push(false);
        proof {
            assert forall|i: int| 0 <= i < self.gates@.len() implies self.gate_ok(
                #[trigger] self.gates@[i],
            ) by {
                lemma_gate_ok_monotone(*old(self), *self, self.gates@[i]);
            }
        }
        Column { kind: ColKind::Instance, index }
    }

    pub fn add_selector(&mut self) -> (r: Column)
        requires
            old(self).wf(),
            old(self).num_selectors < usize::MAX,
        ensures
            final(self).wf(),
            r == (Column { kind: ColKind::Selector, index: old(self).num_selectors }),
            final(self).num_selectors == old(self).num_selectors + 1,
            final(self).num_advice == old(self).num_advice,
            final(self).num_fixed == old(self).num_fixed,
            final(self).num_instance == old(self).num_instance,
            final(self).eq_advice == old(self).eq_advice,
            final(self).eq_fixed == old(self).eq_fixed,
            final(self).eq_instance == old(self).eq_instance,
            final(self).gates == old(self).gates,
    {
        let index = self.num_selectors;
        self.num_selectors = self.num_selectors + 1;
        proof {
            assert forall|i: int| 0 <= i < self.gates@.len() implies self.gate_ok(
                #[trigger] self.gates@[i],
            ) by {
                lemma_gate_ok_monotone(*old(self), *self, self.gates@[i]);
            }
        }
        Column { kind: ColKind::Selector, index }
    }

    /// Mark a declared non-selector column as taking part in copy
    /// constraints. Required before any copy constraint references it.
    pub fn enable_equality(&mut self, c: Column)
        requires
            old(self).wf(),
            old(self).col_declared(c),
            c.kind != ColKind::Selector,
        ensures
            final(self).wf(),
            final(self).eq_enabled(c),
            forall|d: Column| d != c ==> final(self).eq_enabled(d) == old(self).eq_enabled(d),
            c.kind == ColKind::Advice ==> final(self).eq_advice@ == old(self).eq_advice@.update(
                c.index as int,
                true,
            ) && final(self).eq_fixed == old(self).eq_fixed && final(self).eq_instance == old(
                self,
            ).eq_instance,
            c.kind == ColKind::Fixed ==> final(self).eq_fixed@ == old(self).eq_fixed@.update(
                c.index as int,
                true,
            ) && final(self).eq_advice == old(self).eq_advice && final(self).eq_instance == old(
                self,
            ).eq_instance,
            c.kind == ColKind::Instance ==> final(self).eq_instance@ == old(
                self,
            ).eq_instance@.update(c.index as int, true) && final(self).eq_advice == old(
                self,
            ).eq_advice && final(self).eq_fixed == old(self).eq_fixed,
            final(self).num_advice == old(self).num_advice,
            final(self).num_fixed == old(self).num_fixed,
            final(self).num_instance == old(self).num_instance,
            final(self).num_selectors == old(self).num_selectors,
            final(self).gates == old(self).gates,
            final(self).col_declared(c),
    {
        match c.kind {
            ColKind::Advice => {
                self.eq_advice[c.index] = true;
            },
            ColKind::Fixed => {
                self.eq_fixed[c.index] = true;
            },
            ColKind::Instance => {
                self.eq_instance[c.index] = true;
            },
            ColKind::Selector => {
            },
        }
        proof {
            assert forall|i: int| 0 <= i < self.gates@.len() implies self.gate_ok(
                #[trigger] self.gates@[i],
            ) by {
                lemma_gate_ok_monotone(*old(self), *self, self.gates@[i]);
            }
        }
    }

    /// Whether a column may take part in copy constraints.
    pub fn equality_enabled(&self, c: Column) -> (r: bool)
        ensures
            r == self.eq_enabled(c),
    {
        match c.kind {
            ColKind::Advice => {
                if c.index < self.eq_advice.len() {
                    self.eq_advice[c.index]
                } else {
                    false
                }
            },
            ColKind::Fixed => {
                if c.index < self.eq_fixed.len() {
                    self.eq_fixed[c.index]
                } else {
                    false
                }
            },
            ColKind::Instance => {
                if c.index < self.eq_instance.len() {
                    self.eq_instance[c.index]
                } else {
                    false
                }
            },
            ColKind::Selector => false,
        }
    }

    /// Register a gate. Authors build the polynomials with the expression
    /// constructors, querying columns (selectors included) directly, so
    /// each constraint carries its own selector weighting. No gate may be
    /// registered whose expressions reference a column not yet declared,
    /// so well-formedness of the polynomials against the current shape is
    /// a precondition.
    pub fn create_gate(&mut self, name: &'static str, polys: Vec<Expr>)
        requires
            old(self).wf(),
            forall|i: int| 0 <= i < polys@.len() ==> old(self).expr_ok(#[trigger] polys@[i]),
        ensures
            final(self).wf(),
            final(self).gates@ == old(self).gates@.push(Gate { name, polys }),
            final(self).num_advice == old(self).num_advice,
            final(self).num_fixed == old(self).num_fixed,
            final(self).num_instance == old(self).num_instance,
            final(self).num_selectors == old(self).num_selectors,
            final(self).eq_advice == old(self).eq_advice,
            final(self).eq_fixed == old(self).eq_fixed,
            final(self).eq_instance == old(self).eq_instance,
    {
        self.gates.push(Gate { name, polys });
        proof {
            assert forall|i: int| 0 <= i < self.gates@.len() implies self.gate_ok(
                #[trigger] self.gates@[i],
            ) by {
                lemma_gate_ok_monotone(*old(self), *self, self.gates@[i]);
            }
        }
    }
}

/// Declaring more columns (or touching equality flags or gates) never
/// invalidates an expression that was already well formed.
pub proof fn lemma_expr_ok_monotone(cs1: ConstraintSystem, cs2: ConstraintSystem, e: Expr)
    requires
        cs1.expr_ok(e),
        cs1.num_advice <= cs2.num_advice,
        cs1.num_fixed <= cs2.num_fixed,
        cs1.num_instance <= cs2.num_instance,
        cs1.num_selectors <= cs2.num_selectors,
    ensures
        cs2.expr_ok(e),
    decreases e,
{
    match e {
        Expr::Constant(_) => {},
        Expr::Query(_, _) => {},
        Expr::Neg(a) => {
            lemma_expr_ok_monotone(cs1, cs2, *a);
        },
        Expr::Add(a, b) => {
            lemma_expr_ok_monotone(cs1, cs2, *a);
            lemma_expr_ok_monotone(cs1, cs2, *b);
        },
        Expr::Mul(a, b) => {
            lemma_expr_ok_monotone(cs1, cs2, *a);
            lemma_expr_ok_monotone(cs1, cs2, *b);
        },
    }
}

/// A well-formed gate stays well formed when the shape only grows.
proof fn lemma_gate_ok_monotone(cs1: ConstraintSystem, cs2: ConstraintSystem, g: Gate)
    requires
        cs1.gate_ok(g),
        cs1.num_advice <= cs2.num_advice,
        cs1.num_fixed <= cs2.num_fixed,
        cs1.num_instance <= cs2.num_instance,
        cs1.num_selectors <= cs2.num_selectors,
    ensures
        cs2.gate_ok(g),
{
    assert forall|j: int| 0 <= j < g.polys@.len() implies cs2.expr_ok(
        #[trigger] g.polys@[j],
    ) by {
        lemma_expr_ok_monotone(cs1, cs2, g.polys@[j]);
    }
}

} // verus!
