//! Reusable gadgets (chips): sub-relations with their own columns and
//! gates, exporting an expression for enclosing gates to consume.

pub mod is_zero;
