//! A small engine for defining and checking arithmetic constraint circuits:
//! fixed tables of cells whose values must satisfy polynomial equations.
//!
//! The crate is organised leaves first: a prime field, optional ("known or
//! unknown") values, an expression algebra over column queries, a constraint
//! system builder, a region-scoped witness assignment engine, a satisfaction
//! checker, and on top of those a reusable zero-check gadget and two example
//! circuits (a Fibonacci chain and a round-based game score).

pub mod assign;
pub mod chips;
pub mod checker;
pub mod expr;
pub mod fib;
pub mod field;
pub mod game;
pub mod system;
pub mod value;
