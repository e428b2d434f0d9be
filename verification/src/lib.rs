//! A minimal PLONKish arithmetic-circuit engine.
//!
//! The crate provides the bookkeeping layer between "these gates and columns
//! were declared" and "this witness satisfies them": typed columns and
//! selectors, named polynomial gates, region-based witness assignment with a
//! non-overlapping floor planner, copy-constraint (permutation) tracking, and
//! a mock prover that checks every gate and copy constraint against a
//! completed witness grid.  Field elements are kept behind a small interface
//! so the engine is not tied to one concrete field.

pub mod checker;
pub mod fib;
pub mod field;
pub mod layout;
pub mod system;
