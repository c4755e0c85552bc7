//! The region-scoped witness assignment engine.
//!
//! An [`Assignment`] is the concrete (or shape-only) filling of a circuit's
//! table: advice and fixed cell values, selector activations, registered
//! copy constraints and public-instance bindings. Cells are written only
//! inside a [`Region`], a named contiguous window of rows handed out
//! sequentially; touching a row outside a region's declared extent is a
//! bounds error, and copy constraints demand equality-enabled columns.
//! Cells never written hold the additive identity, so a finished witness is
//! total.

use crate::expr::{Cell, ColKind, Column};
use crate::field::Fe;
use crate::system::{ConstraintSystem, Error};
use crate::value::Value;
use vstd::prelude::*;

verus! {

/// A named contiguous window of `len` rows starting at absolute row
/// `start`, within which cells are addressed by offset. Regions are
/// meant to come from [`Assignment::assign_region`], which hands them
/// out sequentially; a hand-built window is harmless to soundness (every
/// operation carries its own bounds conditions) but forfeits the
/// non-overlap discipline.
#[derive(Clone, Copy, Debug)]
pub struct Region {
    pub name: &'static str,
    pub start: usize,
    pub len: usize,
}

/// The witness side of a circuit: every assignable cell, plus the
/// equality bookkeeping gathered while regions were filled.
#[derive(Debug)]
pub struct Assignment {
    pub n_rows: usize,
    pub n_advice: usize,
    pub n_fixed: usize,
    pub n_instance: usize,
    pub n_selectors: usize,
    /// Advice cell values, row-major per column: index `col * n_rows + row`.
    pub advice: Vec<Value>,
    /// Fixed cell values, laid out the same way.
    pub fixed: Vec<Value>,
    /// Selector activations, laid out the same way.
    pub selectors: Vec<bool>,
    /// Registered copy constraints: unordered pairs of cells declared equal.
    pub copies: Vec<(Cell, Cell)>,
    /// Public bindings: witness cell, instance column index, instance row.
    pub bindings: Vec<(Cell, usize, usize)>,
    /// First row not yet owned by any region.
    pub next_row: usize,
}

/// Flat bounds: a cell of a column among `ncols` at a row among `nrows`
/// lands inside the column-major table.
pub proof fn lemma_flat_index(col: int, row: int, ncols: int, nrows: int)
    requires
        0 <= col < ncols,
        0 <= row < nrows,
    ensures
        0 <= col * nrows + row < ncols * nrows,
        col * nrows + row < ncols * nrows,
{
    assert(0 <= col * nrows + row < ncols * nrows) by (nonlinear_arith)
        requires
            0 <= col < ncols,
            0 <= row < nrows,
    ;
}

/// Distinct cells land at distinct flat indices.
pub proof fn lemma_flat_index_injective(c1: int, r1: int, c2: int, r2: int, nrows: int)
    requires
        0 <= r1 < nrows,
        0 <= r2 < nrows,
        0 <= c1,
        0 <= c2,
        c1 * nrows + r1 == c2 * nrows + r2,
    ensures
        c1 == c2,
        r1 == r2,
{
    assert(c1 == c2 && r1 == r2) by (nonlinear_arith)
        requires
            0 <= r1 < nrows,
            0 <= r2 < nrows,
            0 <= c1,
            0 <= c2,
            c1 * nrows + r1 == c2 * nrows + r2,
    ;
}

impl Assignment {
    /// Value of an advice cell.
    pub open spec fn advice_at(self, col: int, row: int) -> Value {
        self.advice@[col * self.n_rows + row]
    }

    /// Value of a fixed cell.
    pub open spec fn fixed_at(self, col: int, row: int) -> Value {
        self.fixed@[col * self.n_rows + row]
    }

    /// Whether a selector is active at a row.
    pub open spec fn selector_at(self, col: int, row: int) -> bool {
        self.selectors@[col * self.n_rows + row]
    }

    /// A cell that may legitimately appear in a copy constraint or a
    /// public binding: an in-range advice or fixed cell.
    pub open spec fn cell_ok(self, c: Cell) -> bool {
        c.row < self.n_rows && match c.col.kind {
            ColKind::Advice => c.col.index < self.n_advice,
            ColKind::Fixed => c.col.index < self.n_fixed,
            ColKind::Instance => false,
            ColKind::Selector => false,
        }
    }

    /// The value such a cell holds.
    pub open spec fn cell_value(self, c: Cell) -> Value {
        match c.col.kind {
            ColKind::Advice => self.advice_at(c.col.index as int, c.row as int),
            ColKind::Fixed => self.fixed_at(c.col.index as int, c.row as int),
            _ => Value::Unknown,
        }
    }

    /// Internal consistency: table sizes match the declared shape, every
    /// stored value is reduced, and the equality bookkeeping only names
    /// in-range cells.
    pub open spec fn wf(self) -> bool {
        &&& 1 <= self.n_rows
        &&& self.advice@.len() == self.n_advice * self.n_rows
        &&& self.fixed@.len() == self.n_fixed * self.n_rows
        &&& self.selectors@.len() == self.n_selectors * self.n_rows
        &&& self.next_row <= self.n_rows
        &&& forall|i: int| 0 <= i < self.advice@.len() ==> (#[trigger] self.advice@[i]).wf()
        &&& forall|i: int| 0 <= i < self.fixed@.len() ==> (#[trigger] self.fixed@[i]).wf()
        &&& forall|i: int|
            0 <= i < self.copies@.len() ==> self.cell_ok((#[trigger] self.copies@[i]).0)
                && self.cell_ok(self.copies@[i].1)
        &&& forall|i: int|
            0 <= i < self.bindings@.len() ==> self.cell_ok((#[trigger] self.bindings@[i]).0)
                && self.bindings@[i].1 < self.n_instance && self.bindings@[i].2 < self.n_rows
    }

    /// The assignment was sized for this constraint system.
    pub open spec fn shape_of(self, cs: ConstraintSystem) -> bool {
        &&& self.n_advice == cs.num_advice
        &&& self.n_fixed == cs.num_fixed
        &&& self.n_instance == cs.num_instance
        &&& self.n_selectors == cs.num_selectors
    }

    /// An empty assignment for `cs` with `n_rows` table rows: every value
    /// cell holds the additive identity, every selector is off, and no
    /// copy constraint or public binding is registered yet.
    pub fn new(cs: &ConstraintSystem, n_rows: usize) -> (r: Assignment)
        requires
            cs.wf(),
            1 <= n_rows,
            cs.num_advice * n_rows <= usize::MAX,
            cs.num_fixed * n_rows <= usize::MAX,
            cs.num_selectors * n_rows <= usize::MAX,
        ensures
            r.wf(),
            r.shape_of(*cs),
            r.n_rows == n_rows,
            r.next_row == 0,
            r.copies@.len() == 0,
            r.bindings@.len() == 0,
            forall|i: int| 0 <= i < r.advice@.len() ==> r.advice@[i] == Value::Known(Fe { rep: 0 }),
            forall|i: int| 0 <= i < r.fixed@.len() ==> r.fixed@[i] == Value::Known(Fe { rep: 0 }),
            forall|i: int| 0 <= i < r.selectors@.len() ==> r.selectors@[i] == false,
    {
        Assignment {
            n_rows,
            n_advice: cs.num_advice,
            n_fixed: cs.num_fixed,
            n_instance: cs.num_instance,
            n_selectors: cs.num_selectors,
            advice: fill_values(cs.num_advice * n_rows, Value::Known(Fe { rep: 0 })),
            fixed: fill_values(cs.num_fixed * n_rows, Value::Known(Fe { rep: 0 })),
            selectors: fill_bools(cs.num_selectors * n_rows),
            copies: Vec::new(),
            bindings: Vec::new(),
            next_row: 0,
        }
    }

    /// Open the next region: a window of `len` rows directly after every
    /// region opened before. Fails (leaving the assignment untouched) iff
    /// the window would run past the table.
    pub fn assign_region(&mut self, name: &'static str, len: usize) -> (r: Result<Region, Error>)
        requires
            old(self).wf(),
        ensures
            final(self).wf(),
            r is Ok <==> old(self).next_row + len <= old(self).n_rows,
            r matches Ok(reg) ==> ({
                &&& reg.start == old(self).next_row
                &&& reg.len == len
                &&& reg.start + reg.len <= final(self).n_rows
                &&& final(self).next_row == old(self).next_row + len
                &&& final(self).advice == old(self).advice
                &&& final(self).fixed == old(self).fixed
                &&& final(self).selectors == old(self).selectors
                &&& final(self).copies == old(self).copies
                &&& final(self).bindings == old(self).bindings
                &&& final(self).n_rows == old(self).n_rows
                &&& final(self).n_advice == old(self).n_advice
                &&& final(self).n_fixed == old(self).n_fixed
                &&& final(self).n_instance == old(self).n_instance
                &&& final(self).n_selectors == old(self).n_selectors
            }),
            r is Err ==> *final(self) == *old(self) && r == Err::<Region, Error>(
                Error::RegionBoundsError,
            ),
    {
        if len > self.n_rows - self.next_row {
            return Err(Error::RegionBoundsError);
        }
        let start = self.next_row;
        self.next_row = self.next_row + len;
        Ok(Region { name, start, len })
    }

    /// Write a witness value into an advice cell of the region, returning
    /// a handle to the cell for later copying. Fails iff the offset lies
    /// outside the region.
    pub fn assign_advice(
        &mut self,
        region: Region,
        col: Column,
        offset: usize,
        v: Value,
    ) -> (r: Result<Cell, Error>)
        requires
            old(self).wf(),
            col.kind == ColKind::Advice,
            col.index < old(self).n_advice,
            region.start + region.len <= old(self).n_rows,
            v.wf(),
        ensures
            final(self).wf(),
            r is Ok <==> offset < region.len,
            offset < region.len ==> ({
                let row = region.start + offset;
                &&& r == Ok::<Cell, Error>(Cell { col, row: row as usize })
                &&& final(self).advice@ == old(self).advice@.update(
                    col.index * old(self).n_rows + row,
                    v,
                )
                &&& final(self).fixed == old(self).fixed
                &&& final(self).selectors == old(self).selectors
                &&& final(self).copies == old(self).copies
                &&& final(self).bindings == old(self).bindings
                &&& final(self).next_row == old(self).next_row
                &&& final(self).n_rows == old(self).n_rows
                &&& final(self).n_advice == old(self).n_advice
                &&& final(self).n_fixed == old(self).n_fixed
                &&& final(self).n_instance == old(self).n_instance
                &&& final(self).n_selectors == old(self).n_selectors
            }),
            offset >= region.len ==> *final(self) == *old(self) && r == Err::<Cell, Error>(
                Error::RegionBoundsError,
            ),
    {
        if offset >= region.len {
            return Err(Error::RegionBoundsError);
        }
        let row = region.start + offset;
        let total = self.advice.len();
        proof {
            lemma_flat_index(col.index as int, row as int, self.n_advice as int,
                self.n_rows as int);
            assert(col.index * self.n_rows + row < total);
        }
        let idx = col.index * self.n_rows + row;
        self.advice[idx] = v;
        Ok(Cell { col, row })
    }

    /// Write a new advice cell equal by construction to a previously
    /// assigned cell, and register the copy constraint between the two.
    /// This is the only sanctioned way to reuse a value across regions.
    /// Fails with a bounds error iff the offset lies outside the region,
    /// else with an equality error iff either column lacks equality.
    pub fn copy_advice(
        &mut self,
        cs: &ConstraintSystem,
        src: Cell,
        region: Region,
        col: Column,
        offset: usize,
    ) -> (r: Result<Cell, Error>)
        requires
            old(self).wf(),
            old(self).shape_of(*cs),
            cs.wf(),
            old(self).cell_ok(src),
            col.kind == ColKind::Advice,
            col.index < old(self).n_advice,
            region.start + region.len <= old(self).n_rows,
        ensures
            final(self).wf(),
            offset >= region.len ==> *final(self) == *old(self) && r == Err::<Cell, Error>(
                Error::RegionBoundsError,
            ),
            offset < region.len && !(cs.eq_enabled(src.col) && cs.eq_enabled(col))
                ==> *final(self) == *old(self) && r == Err::<Cell, Error>(
                Error::EqualityNotEnabledError,
            ),
            offset < region.len && cs.eq_enabled(src.col) && cs.eq_enabled(col) ==> ({
                let row = region.start + offset;
                let dst = Cell { col, row: row as usize };
                &&& r == Ok::<Cell, Error>(dst)
                &&& final(self).advice@ == old(self).advice@.update(
                    col.index * old(self).n_rows + row,
                    old(self).cell_value(src),
                )
                &&& final(self).copies@ == old(self).copies@.push((src, dst))
                &&& final(self).fixed == old(self).fixed
                &&& final(self).selectors == old(self).selectors
                &&& final(self).bindings == old(self).bindings
                &&& final(self).next_row == old(self).next_row
                &&& final(self).n_rows == old(self).n_rows
                &&& final(self).n_advice == old(self).n_advice
                &&& final(self).n_fixed == old(self).n_fixed
                &&& final(self).n_instance == old(self).n_instance
                &&& final(self).n_selectors == old(self).n_selectors
            }),
    {
        if offset >= region.len {
            return Err(Error::RegionBoundsError);
        }
        if !(cs.equality_enabled(src.col) && cs.equality_enabled(col)) {
            return Err(Error::EqualityNotEnabledError);
        }
        let row = region.start + offset;
        let v = self.read_cell(src);
        let total = self.advice.len();
        proof {
            lemma_flat_index(col.index as int, row as int, self.n_advice as int,
                self.n_rows as int);
            assert(col.index * self.n_rows + row < total);
        }
        let idx = col.index * self.n_rows + row;
        self.advice[idx] = v;
        let dst = Cell { col, row };
        self.copies.push((src, dst));
        Ok(dst)
    }

    /// Seed an advice cell of the region with a circuit-level constant:
    /// the constant is written both to the advice cell and to the same row
    /// of the given fixed column, and a copy constraint ties the two, so
    /// the witness cannot deviate from the constant. Both columns must
    /// have equality enabled.
    pub fn assign_advice_from_constant(
        &mut self,
        cs: &ConstraintSystem,
        region: Region,
        col: Column,
        offset: usize,
        constant: Fe,
        fixed_col: Column,
    ) -> (r: Result<Cell, Error>)
        requires
            old(self).wf(),
            old(self).shape_of(*cs),
            cs.wf(),
            col.kind == ColKind::Advice,
            col.index < old(self).n_advice,
            fixed_col.kind == ColKind::Fixed,
            fixed_col.index < old(self).n_fixed,
            region.start + region.len <= old(self).n_rows,
            constant.wf(),
        ensures
            final(self).wf(),
            offset >= region.len ==> *final(self) == *old(self) && r == Err::<Cell, Error>(
                Error::RegionBoundsError,
            ),
            offset < region.len && !(cs.eq_enabled(col) && cs.eq_enabled(fixed_col))
                ==> *final(self) == *old(self) && r == Err::<Cell, Error>(
                Error::EqualityNotEnabledError,
            ),
            offset < region.len && cs.eq_enabled(col) && cs.eq_enabled(fixed_col) ==> ({
                let row = region.start + offset;
                let dst = Cell { col, row: row as usize };
                let anchor = Cell { col: fixed_col, row: row as usize };
                &&& r == Ok::<Cell, Error>(dst)
                &&& final(self).advice@ == old(self).advice@.update(
                    col.index * old(self).n_rows + row,
                    Value::Known(constant),
                )
                &&& final(self).fixed@ == old(self).fixed@.update(
                    fixed_col.index * old(self).n_rows + row,
                    Value::Known(constant),
                )
                &&& final(self).copies@ == old(self).copies@.push((dst, anchor))
                &&& final(self).selectors == old(self).selectors
                &&& final(self).bindings == old(self).bindings
                &&& final(self).next_row == old(self).next_row
                &&& final(self).n_rows == old(self).n_rows
                &&& final(self).n_advice == old(self).n_advice
                &&& final(self).n_fixed == old(self).n_fixed
                &&& final(self).n_instance == old(self).n_instance
                &&& final(self).n_selectors == old(self).n_selectors
            }),
    {
        if offset >= region.len {
            return Err(Error::RegionBoundsError);
        }
        if !(cs.equality_enabled(col) && cs.equality_enabled(fixed_col)) {
            return Err(Error::EqualityNotEnabledError);
        }
        let row = region.start + offset;
        let atotal = self.advice.len();
        let ftotal = self.fixed.len();
        proof {
            lemma_flat_index(col.index as int, row as int, self.n_advice as int,
                self.n_rows as int);
            lemma_flat_index(fixed_col.index as int, row as int, self.n_fixed as int,
                self.n_rows as int);
            assert(col.index * self.n_rows + row < atotal);
            assert(fixed_col.index * self.n_rows + row < ftotal);
        }
        let aidx = col.index * self.n_rows + row;
        self.advice[aidx] = Value::Known(constant);
        let fidx = fixed_col.index * self.n_rows + row;
        self.fixed[fidx] = Value::Known(constant);
        let dst = Cell { col, row };
        let anchor = Cell { col: fixed_col, row };
        self.copies.push((dst, anchor));
        Ok(dst)
    }

    /// Toggle a selector to the multiplicative identity at one row of the
    /// region; every selector cell not enabled stays at the additive
    /// identity. Fails iff the offset lies outside the region.
    pub fn enable_selector(&mut self, sel: Column, region: Region, offset: usize) -> (r: Result<
        (),
        Error,
    >)
        requires
            old(self).wf(),
            sel.kind == ColKind::Selector,
            sel.index < old(self).n_selectors,
            region.start + region.len <= old(self).n_rows,
        ensures
            final(self).wf(),
            r is Ok <==> offset < region.len,
            offset < region.len ==> ({
                let row = region.start + offset;
                &&& final(self).selectors@ == old(self).selectors@.update(
                    sel.index * old(self).n_rows + row,
                    true,
                )
                &&& final(self).advice == old(self).advice
                &&& final(self).fixed == old(self).fixed
                &&& final(self).copies == old(self).copies
                &&& final(self).bindings == old(self).bindings
                &&& final(self).next_row == old(self).next_row
                &&& final(self).n_rows == old(self).n_rows
                &&& final(self).n_advice == old(self).n_advice
                &&& final(self).n_fixed == old(self).n_fixed
                &&& final(self).n_instance == old(self).n_instance
                &&& final(self).n_selectors == old(self).n_selectors
            }),
            offset >= region.len ==> *final(self) == *old(self) && r == Err::<(), Error>(
                Error::RegionBoundsError,
            ),
    {
        if offset >= region.len {
            return Err(Error::RegionBoundsError);
        }
        let row = region.start + offset;
        let total = self.selectors.len();
        proof {
            lemma_flat_index(sel.index as int, row as int, self.n_selectors as int,
                self.n_rows as int);
            assert(sel.index * self.n_rows + row < total);
        }
        let idx = sel.index * self.n_rows + row;
        self.selectors[idx] = true;
        Ok(())
    }

    /// Bind a witness cell to a public instance slot: the checker will
    /// demand that the cell's value equal the declared instance value at
    /// that row. Fails iff either column lacks equality.
    pub fn expose_public(
        &mut self,
        cs: &ConstraintSystem,
        cell: Cell,
        instance: Column,
        row: usize,
    ) -> (r: Result<(), Error>)
        requires
            old(self).wf(),
            old(self).shape_of(*cs),
            cs.wf(),
            old(self).cell_ok(cell),
            instance.kind == ColKind::Instance,
            instance.index < old(self).n_instance,
            row < old(self).n_rows,
        ensures
            final(self).wf(),
            r is Ok <==> cs.eq_enabled(cell.col) && cs.eq_enabled(instance),
            r is Ok ==> ({
                &&& final(self).bindings@ == old(self).bindings@.push(
                    (cell, instance.index, row),
                )
                &&& final(self).advice == old(self).advice
                &&& final(self).fixed == old(self).fixed
                &&& final(self).selectors == old(self).selectors
                &&& final(self).copies == old(self).copies
                &&& final(self).next_row == old(self).next_row
                &&& final(self).n_rows == old(self).n_rows
                &&& final(self).n_advice == old(self).n_advice
                &&& final(self).n_fixed == old(self).n_fixed
                &&& final(self).n_instance == old(self).n_instance
                &&& final(self).n_selectors == old(self).n_selectors
            }),
            r is Err ==> *final(self) == *old(self) && r == Err::<(), Error>(
                Error::EqualityNotEnabledError,
            ),
    {
        if !(cs.equality_enabled(cell.col) && cs.equality_enabled(instance)) {
            return Err(Error::EqualityNotEnabledError);
        }
        self.bindings.push((cell, instance.index, row));
        Ok(())
    }

    /// Read the current value of an advice or fixed cell.
    pub fn read_cell(&self, c: Cell) -> (r: Value)
        requires
            self.wf(),
            self.cell_ok(c),
        ensures
            r == self.cell_value(c),
            r.wf(),
    {
        match c.col.kind {
            ColKind::Advice => {
                let total = self.advice.len();
                proof {
                    lemma_flat_index(c.col.index as int, c.row as int, self.n_advice as int,
                        self.n_rows as int);
                    assert(c.col.index * self.n_rows + c.row < total);
                }
                self.advice[c.col.index * self.n_rows + c.row]
            },
            ColKind::Fixed => {
                let total = self.fixed.len();
                proof {
                    lemma_flat_index(c.col.index as int, c.row as int, self.n_fixed as int,
                        self.n_rows as int);
                    assert(c.col.index * self.n_rows + c.row < total);
                }
                self.fixed[c.col.index * self.n_rows + c.row]
            },
            _ => Value::Unknown,
        }
    }
}

/// A vector of `n` equal values.
fn fill_values(n: usize, v: Value) -> (r: Vec<Value>)
    ensures
        r@.len() == n,
        forall|i: int| 0 <= i < n ==> r@[i] == v,
{
    let mut out: Vec<Value> = Vec::new();
    let mut i: usize = 0;
    while i < n
        invariant
            i <= n,
            out@.len() == i,
            forall|j: int| 0 <= j < i ==> out@[j] == v,
        decreases n - i,
    {
        out.push(v);
        i = i + 1;
    }
    out
}

/// A vector of `n` cleared flags.
fn fill_bools(n: usize) -> (r: Vec<bool>)
    ensures
        r@.len() == n,
        forall|i: int| 0 <= i < n ==> r@[i] == false,
{
    let mut out: Vec<bool> = Vec::new();
    let mut i: usize = 0;
    while i < n
        invariant
            i <= n,
            out@.len() == i,
            forall|j: int| 0 <= j < i ==> out@[j] == false,
        decreases n - i,
    {
        out.push(false);
        i = i + 1;
    }
    out
}

} // verus!
