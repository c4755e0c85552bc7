//! Possibly-unknown cell values.
//!
//! During a shape-only synthesis pass no concrete witness exists, so every
//! written value is `Unknown`; arithmetic on such values propagates the
//! unknown instead of failing, exactly as the combination rules below state.

use crate::field::Fe;
use crate::field::fadd;
use crate::field::fmul;
use crate::field::fneg;
use crate::field::fsub;
use vstd::prelude::*;

verus! {

/// A cell value: a concrete field element, or not yet known.
#[derive(Clone, Copy, Debug, PartialEq, Eq, Structural)]
pub enum Value {
    Unknown,
    Known(Fe),
}

/// Sum, propagating `Unknown`.
pub open spec fn v_add(a: Value, b: Value) -> Value {
    match (a, b) {
        (Value::Known(x), Value::Known(y)) => Value::Known(Fe { rep: fadd(x.rep, y.rep) }),
        _ => Value::Unknown,
    }
}

/// Difference, propagating `Unknown`.
pub open spec fn v_sub(a: Value, b: Value) -> Value {
    match (a, b) {
        (Value::Known(x), Value::Known(y)) => Value::Known(Fe { rep: fsub(x.rep, y.rep) }),
        _ => Value::Unknown,
    }
}

/// Product, propagating `Unknown`.
pub open spec fn v_mul(a: Value, b: Value) -> Value {
    match (a, b) {
        (Value::Known(x), Value::Known(y)) => Value::Known(Fe { rep: fmul(x.rep, y.rep) }),
        _ => Value::Unknown,
    }
}

/// Additive inverse, propagating `Unknown`.
pub open spec fn v_neg(a: Value) -> Value {
    match a {
        Value::Known(x) => Value::Known(Fe { rep: fneg(x.rep) }),
        Value::Unknown => Value::Unknown,
    }
}

impl Value {
    /// Any held element is reduced.
    pub open spec fn wf(self) -> bool {
        match self {
            Value::Known(f) => f.wf(),
            Value::Unknown => true,
        }
    }

    /// A concrete value.
    pub fn known(f: Fe) -> (r: Value)
        ensures
            r == Value::Known(f),
    {
        Value::Known(f)
    }

    /// The shape-only placeholder.
    pub fn unknown() -> (r: Value)
        ensures
            r == Value::Unknown,
    {
        Value::Unknown
    }

    pub fn is_known(&self) -> (r: bool)
        ensures
            r == (*self is Known),
    {
        match *self {
            Value::Known(_) => true,
            Value::Unknown => false,
        }
    }

    pub fn add(self, o: Value) -> (r: Value)
        requires
            self.wf(),
            o.wf(),
        ensures
            r == v_add(self, o),
            r.wf(),
    {
        match (self, o) {
            (Value::Known(x), Value::Known(y)) => Value::Known(x.add(y)),
            _ => Value::Unknown,
        }
    }

    pub fn sub(self, o: Value) -> (r: Value)
        requires
            self.wf(),
            o.wf(),
        ensures
            r == v_sub(self, o),
            r.wf(),
    {
        match (self, o) {
            (Value::Known(x), Value::Known(y)) => Value::Known(x.sub(y)),
            _ => Value::Unknown,
        }
    }

    pub fn mul(self, o: Value) -> (r: Value)
        requires
            self.wf(),
            o.wf(),
        ensures
            r == v_mul(self, o),
            r.wf(),
    {
        match (self, o) {
            (Value::Known(x), Value::Known(y)) => Value::Known(x.mul(y)),
            _ => Value::Unknown,
        }
    }

    pub fn neg(self) -> (r: Value)
        requires
            self.wf(),
        ensures
            r == v_neg(self),
            r.wf(),
    {
        match self {
            Value::Known(x) => Value::Known(x.neg()),
            Value::Unknown => Value::Unknown,
        }
    }
}

} // verus!
