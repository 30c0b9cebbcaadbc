//! A verified layer/gadget composition engine for compiling elementwise
//! tensor operations into arithmetic-circuit constraints.
//!
//! Layers (add, sub, mul, neg) validate and broadcast tensor shapes,
//! share a pool of committed constants and a single resource
//! configuration, and drive reusable pairwise gadgets that commit output
//! wires and record gate and permutation constraints binding them.
//! Every contract is machine-checked: broadcast indexing, the exact
//! field value of every output wire, the shape and order of everything
//! the build records, and the soundness of each recorded gate under any
//! candidate assignment.

pub mod arithmetic;
pub mod field;
pub mod gadgets;
pub mod layers;
pub mod layout;
pub mod pool;
pub mod shape;
pub mod tensor;

use vstd::prelude::*;

verus! {

/// Errors surfaced while describing or synthesising a circuit.
///
/// `ShapeMismatch` rejects operands whose shapes are not
/// broadcast-compatible, or a declared shape that does not match a computed
/// one. `UnregisteredConstant` reports a constant-pool lookup for an
/// identifier that was never populated. `SynthesisError` reports exhaustion
/// of the layouter's cell capacity. `UnsupportedOperation` rejects a layer
/// whose semantics are not fully pinned down by constraints (fail closed).
#[derive(Clone, Copy, PartialEq, Eq, Structural, Debug)]
pub enum Error {
    ShapeMismatch,
    UnregisteredConstant,
    SynthesisError,
    UnsupportedOperation,
}

} // verus!
