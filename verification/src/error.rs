use vstd::prelude::*;

verus! {

/// Failures that can arise while decoding a map byte stream.
#[derive(Debug, Clone, Copy, PartialEq, Eq, Structural)]
pub enum MapError {
    /// The byte stream ended before the requested data could be read.
    UnexpectedEof,
    /// A run would push the number of consumed cells past the declared
    /// grid size; the stream and the header are inconsistent.
    RunOverflow,
}

} // verus!
