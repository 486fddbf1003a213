//! The provenance marker of facts that this library proposes.
use vstd::prelude::*;

verus! {

/// Marker type identifying facts that this library emits.
#[derive(Debug, Clone, Copy, PartialEq, Eq, Structural)]
pub struct Prism;

impl Prism {
    /// The provenance string, `"prism"`.
    pub fn as_str(&self) -> (r: &'static str)
        ensures
            r@ == "prism"@,
    {
        "prism"
    }
}

/// The canonical provenance value.
pub const PRISM_PROVENANCE: Prism = Prism;

} // verus!
