//! The echo protocol: whatever a connection sends comes back unchanged,
//! until it closes. The copying itself is all input and output.
use vstd::prelude::*;

verus! {

/// The echo protocol.
#[derive(Debug, Clone, Copy, PartialEq, Eq)]
pub struct SmokeTest;

impl SmokeTest {
    /// The echo protocol.
    pub fn new() -> (r: SmokeTest)
        ensures
            r == SmokeTest,
    {
        SmokeTest
    }
}

} // verus!
