use vstd::prelude::*;

verus! {

/// Builds a schema of a source text.
#[derive(Debug, Clone, Copy, PartialEq, Eq)]
pub struct Schema;

} // verus!
