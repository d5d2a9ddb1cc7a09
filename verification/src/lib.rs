//! A lambda-calculus evaluator that reduces terms to head normal form
//! under a call-by-need discipline.
//!
//! Terms are reduced with an explicit zipper (a focused subterm plus its
//! surrounding context) and an environment of pending bindings, driven by
//! a bounded iterate-to-fixed-point loop instead of host recursion.

pub mod eval;
pub mod fix;
pub mod parser;
pub mod term;
pub mod zipper;
