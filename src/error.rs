use vstd::prelude::*;

verus! {

/// The ways in which building or reading a simulation can fail.
#[derive(Debug, Clone, Copy, PartialEq, Eq, Structural)]
pub enum SimError {
    /// An entity's historical sample sequence is empty.
    InvalidInput,
    /// The entity count does not suit the pairing rule.
    InvalidConfiguration,
    /// A report was requested before any trial ran.
    InvalidState,
}

} // verus!
