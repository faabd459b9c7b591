//! A lazily evaluated, memoized arithmetic expression graph.
//!
//! Variables feed a directed acyclic graph of operators. Every operator vertex
//! remembers, for each tuple of input values it has seen, the value that the
//! operator gave for it, so that a value is worked out once per tuple.
//!
//! Scalars are IEEE-754 single-precision numbers held as their bit patterns:
//! the engine compares, stores and hands them on, and leaves the arithmetic
//! to the caller's operator function.

pub mod operator;
pub mod model;
pub mod cache;
pub mod lemmas;
mod walk;
pub mod node;
pub mod laws;
