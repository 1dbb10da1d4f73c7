use vstd::prelude::*;

verus! {

/// Why a transform could not be carried out.
#[derive(Clone, Copy, Debug, PartialEq, Eq, Structural)]
pub enum FilterError {
    /// Quantization against a palette with no entries.
    EmptyPalette,
    /// Every luminance to be stretched is the same, so no range can be spread.
    DegenerateLuminanceRange,
    /// A generation range outside the open interval (0, 255).
    InvalidRange,
}

} // verus!
