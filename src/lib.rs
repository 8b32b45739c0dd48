//! Simplification of boolean predicate expressions over platform conditions.
pub mod ast;
pub mod eval;
pub mod transform;
pub mod cfg;
pub mod domain;
pub mod visit_mut;
pub mod parsing;
pub mod numeric;
pub mod utils;
