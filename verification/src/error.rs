use vstd::prelude::*;

verus! {

/// Failure to read a compression extension chain from a filename.
#[derive(Debug, PartialEq, Eq)]
pub enum ExtensionError {
    /// The filename carries no recognized trailing compression suffix.
    Unrecognized,
}

/// Errors surfaced by command inference and by the codec adapters.
#[derive(Debug, PartialEq, Eq)]
pub enum Error {
    /// A decompression command was inferred, but the named input has no
    /// recognized compression suffix.
    InputsMustHaveBeenDecompressible(String),
    /// Malformed invocation or malformed codec input.
    InvalidInput,
    /// A filesystem or stream failure in the surrounding execution stage.
    Io,
}

} // verus!
