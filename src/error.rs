//! The errors that reach the caller of the pipeline.
use vstd::prelude::*;

verus! {

#[derive(Clone, Copy, PartialEq, Eq, Structural, Debug)]
pub enum RenderError {
    /// Elements nest deeper than the configured maximum.
    StructureError,
    /// The input bytes are not valid UTF-8.
    EncodingError,
}

} // verus!
