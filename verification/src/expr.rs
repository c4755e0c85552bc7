//! Columns, cells, and the polynomial expression algebra.
//!
//! An expression is an immutable tree over constants and cell queries; a
//! query names a column and a signed rotation, the row offset relative to
//! the row a gate is being evaluated at. Trees are data, never closures, so
//! they can be evaluated any number of times.

use crate::field::Fe;
use vstd::prelude::*;

verus! {

/// The four column kinds of the table.
#[derive(Clone, Copy, Debug, PartialEq, Eq, Structural)]
pub enum ColKind {
    /// Private witness.
    Advice,
    /// Circuit-defined constants.
    Fixed,
    /// Public inputs.
    Instance,
    /// Boolean per-row gate toggle.
    Selector,
}

/// A column handle: its kind and its index among columns of that kind.
#[derive(Clone, Copy, Debug, PartialEq, Eq, Structural)]
pub struct Column {
    pub kind: ColKind,
    pub index: usize,
}

/// The atomic addressable location: a column at a row.
#[derive(Clone, Copy, Debug, PartialEq, Eq, Structural)]
pub struct Cell {
    pub col: Column,
    pub row: usize,
}

/// A polynomial expression over cell queries.
#[derive(Debug)]
pub enum Expr {
    /// A literal field element.
    Constant(Fe),
    /// The value of a column at the current row shifted by a rotation.
    Query(Column, i64),
    /// Additive inverse of a subtree.
    Neg(Box<Expr>),
    /// Sum of two subtrees.
    Add(Box<Expr>, Box<Expr>),
    /// Product of two subtrees.
    Mul(Box<Expr>, Box<Expr>),
}

impl Clone for Expr {
    /// A clone is spec-equal to the original tree.
    fn clone(&self) -> (r: Expr)
        ensures
            r == *self,
        decreases *self,
    {
        match self {
            Expr::Constant(f) => Expr::Constant(*f),
            Expr::Query(c, rot) => Expr::Query(*c, *rot),
            Expr::Neg(a) => Expr::Neg(Box::new((**a).clone())),
            Expr::Add(a, b) => Expr::Add(Box::new((**a).clone()), Box::new((**b).clone())),
            Expr::Mul(a, b) => Expr::Mul(Box::new((**a).clone()), Box::new((**b).clone())),
        }
    }
}

impl Expr {
    /// Every constant in the tree is reduced.
    pub open spec fn wf(self) -> bool
        decreases self,
    {
        match self {
            Expr::Constant(f) => f.wf(),
            Expr::Query(_, _) => true,
            Expr::Neg(a) => a.wf(),
            Expr::Add(a, b) => a.wf() && b.wf(),
            Expr::Mul(a, b) => a.wf() && b.wf(),
        }
    }

    pub fn constant(f: Fe) -> (r: Expr)
        ensures
            r == Expr::Constant(f),
    {
        Expr::Constant(f)
    }

    pub fn query(col: Column, rotation: i64) -> (r: Expr)
        ensures
            r == Expr::Query(col, rotation),
    {
        Expr::Query(col, rotation)
    }

    pub fn neg(self) -> (r: Expr)
        ensures
            r is Neg,
            *r->Neg_0 == self,
    {
        Expr::Neg(Box::new(self))
    }

    pub fn add(self, o: Expr) -> (r: Expr)
        ensures
            r is Add,
            *r->Add_0 == self,
            *r->Add_1 == o,
    {
        Expr::Add(Box::new(self), Box::new(o))
    }

    /// Difference, built as a sum with a negation: the tree vocabulary
    /// itself has no subtraction node.
    pub fn sub(self, o: Expr) -> (r: Expr)
        ensures
            r is Add,
            *r->Add_0 == self,
            *r->Add_1 is Neg,
            *(*r->Add_1)->Neg_0 == o,
    {
        Expr::Add(Box::new(self), Box::new(Expr::Neg(Box::new(o))))
    }

    pub fn mul(self, o: Expr) -> (r: Expr)
        ensures
            r is Mul,
            *r->Mul_0 == self,
            *r->Mul_1 == o,
    {
        Expr::Mul(Box::new(self), Box::new(o))
    }
}

/// A constant expression holding the reduction of `v` into the field.
pub fn const_val(v: u64) -> (r: Expr)
    ensures
        r is Constant,
        r->Constant_0.rep == v % crate::field::MODULUS,
        r.wf(),
{
    Expr::Constant(Fe::from_u64(v))
}

} // verus!
