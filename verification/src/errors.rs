//! The engine's failure taxonomy.
//!
//! Every fallible operation returns one of these variants; none of the
//! verified functions panics or aborts, and a failed call leaves the
//! structure it was called on unchanged.

use vstd::prelude::*;

verus! {

/// Why an engine operation was refused.
#[derive(Clone, Copy, Debug, PartialEq, Eq, Structural)]
pub enum NeuralError {
    /// Declared dimensions of two operands disagree, or a dimension is zero
    /// or above the engine's capacity bound.
    ShapeMismatch,
    /// Forward or training work was asked of a network with no layers.
    EmptyNetwork,
    /// A backward pass was asked of a layer with no cached forward pass.
    StaleState,
    /// A model byte blob could not be decoded.
    ModelParsingError,
    /// A sample byte blob could not be decoded.
    SampleParsingError,
    /// An activation tag outside the enumerated set.
    UnsupportedActivation,
    /// A cost tag outside the enumerated set.
    UnsupportedCost,
    /// A stored model was asked for where none has been set.
    NoModel,
}

} // verus!
