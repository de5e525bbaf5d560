//! The ways in which a monomorphization request is abandoned.

use vstd::prelude::*;

verus! {

/// Why a request was abandoned. No fault is recovered from: the component
/// under construction is dropped with it.
#[derive(Clone, Copy, Debug, PartialEq, Eq)]
pub enum Fault {
    /// A loop bound or an access bound did not reduce to a literal.
    NonConcrete,
    /// The condition of a conditional did not resolve to true or false.
    NonBoolCondition,
    /// An existential binding was met; the engine does not translate them.
    NotImplemented,
    /// A parameter, an index or a component expected to be in scope is not.
    Missing,
}

} // verus!
