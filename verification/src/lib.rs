//! The term and value core of a dependently typed lambda calculus.
//!
//! The crate provides the locally nameless variable model, the scope
//! combinator that binds and unbinds names, the core term syntax, the value
//! representation used during evaluation, capture-avoiding substitution of
//! free variables, propagation of universe-level shifts, and structural
//! alpha-equivalence across all of these.

pub mod universe;
pub mod var;
pub mod term;
pub mod alpha;
pub mod binding;
pub mod value;
pub mod laws;
