//! A correctness oracle for a data-parallel engine's group-by computation.
//!
//! The crate generates a synthetic dataset of bounded integer keys, groups it
//! with a sequential reference aggregator, decodes the grouping that an
//! execution engine produced for the same dataset, and compares the two
//! groupings in an order-independent canonical form.

pub mod error;
pub mod dataset;
pub mod grouping;
pub mod compare;
pub mod engine;
pub mod laws;
