use vstd::prelude::*;

verus! {

/// Why a frame, or a part of one, could not be turned into glyphs.
#[derive(Clone, Copy, Debug, PartialEq, Eq, Structural)]
pub enum RenderError {
    /// The samples handed in do not have the shape that the operation works on:
    /// a cell row that is not eight samples long, a frame without a channel,
    /// a sample buffer that does not fill its frame, a palette without entries.
    InvalidInput,
    /// A feature vector holds a coordinate that is not a number, so that its
    /// distance to a palette entry is not a number either.
    DegenerateInput,
}

} // verus!
