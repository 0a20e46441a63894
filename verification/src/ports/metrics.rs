use vstd::prelude::*;

verus! {

/// A metrics sink that records nothing.
#[derive(Debug, Clone, Copy)]
pub struct NoOpMetrics;

} // verus!
