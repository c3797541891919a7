//! The failures that end a probe without a result.
use vstd::prelude::*;

verus! {

/// A failure that ends a probe without a result. Lost or unreadable replies
/// are never errors: they count as loss.
#[derive(Clone, Copy, Debug, PartialEq, Eq, Structural)]
pub enum ProbeError {
    /// The target could not be turned into an address; fatal to both probes.
    ResolutionFailure,
    /// The probe could not open its transport, or sent nothing at all.
    TransportUnavailable,
}

} // verus!
