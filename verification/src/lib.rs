//! A Gauss-Seidel solver for square linear systems over exact decimal
//! arithmetic.
//!
//! A validated problem — a square decimal matrix with a non-zero diagonal, a
//! matching right-hand side, an iteration cap and a tolerance — is built from
//! textual input by [`builder`], and [`solver`] iterates from an all-ones
//! estimate until no unknown moves by the tolerance or more within one sweep,
//! or the cap is reached. The decimal arithmetic itself is carried out by the
//! `rust_decimal` crate behind the contracts in [`decimal`]; [`laws`] proves
//! the solver's general properties, and [`text`] holds the indentation helper
//! the surrounding program prints errors with.

pub mod builder;
pub mod decimal;
pub mod laws;
pub mod solver;
pub mod text;
