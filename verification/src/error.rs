//! The three error kinds of the toolkit: an underlying reader or writer
//! failing or running dry, a byte stream violating the structural rules of
//! IPP or PWG-Raster, and a value whose contents cannot be parsed.
use vstd::prelude::*;

verus! {

/// Error kind propagated, without recovery, from the point of detection to
/// the top-level caller.
#[derive(Debug, Clone, Copy, PartialEq, Eq, Structural)]
pub enum IppError {
    /// The input ended before the bytes a field needs were read.
    Io,
    /// A byte on the wire violates the structural rules: an unknown tag, a
    /// delimiter inside a collection, mismatched collection braces, or a
    /// fixed-shape value with the wrong length.
    Protocol,
    /// A value's contents cannot be parsed: invalid UTF-8, inner lengths of a
    /// string-with-language that do not sum to the payload length, or a
    /// date-time direction byte that is neither `'+'` nor `'-'`.
    ValueFormat,
}

impl IppError {
    /// Short description, for callers that report errors as text.
    pub fn describe(&self) -> &'static str {
        match self {
            IppError::Io => "input ended before the requested bytes were read",
            IppError::Protocol => "byte stream violates the protocol structure",
            IppError::ValueFormat => "value contents could not be parsed",
        }
    }
}

} // verus!
