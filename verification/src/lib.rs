//! Monomorphization of parametric hardware components.
//!
//! A generic component carries compile-time integer parameters, loops and
//! conditionals. For one binding of its parameters the engine builds a
//! concrete component: every expression is evaluated as far as it can be,
//! loops are unrolled, conditionals are decided, and each reference is
//! remapped to a freshly allocated entity of the concrete component.
//!
//! The library is laid out from the leaves up:
//!
//! - [`ir`] holds the representation of components, [`fault`] the ways in
//!   which a request is abandoned, [`maps`] the lookup tables;
//! - [`base`] is the concrete component under construction;
//! - [`monosig`] translates single entities of one component;
//! - [`deferred`] builds the signature of a component and walks its body;
//! - [`pass`] answers requests and remembers the answers.
//!
//! Every function that changes a state is specified by a function of the
//! mathematical value of that state. [`laws`] states what holds of these
//! functions together, and [`unrolling`] what a loop over connections
//! comes to; [`invariants`], [`frame`], [`scope`] and [`replay`] hold the
//! lemmas that the laws rest on.

pub mod base;
pub mod deferred;
pub mod fault;
pub mod frame;
pub mod invariants;
pub mod ir;
pub mod laws;
pub mod maps;
pub mod monosig;
pub mod pass;
pub mod replay;
pub mod scope;
pub mod unrolling;
