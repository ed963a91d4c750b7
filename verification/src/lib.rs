//! Client-side toolkit for IPP (Internet Printing Protocol) printers and the
//! PWG-Raster page format: a verified codec for IPP request/response messages,
//! a verified codec for PWG-Raster page headers and run-length-encoded bodies,
//! and the decision logic of a print-job submission sequence.
use vstd::prelude::*;

pub mod codec;
pub mod color;
pub mod error;
pub mod job;
pub mod message;
pub mod pwgraster;
pub mod rle;
pub mod tags;
pub mod values;
pub mod wire;

verus! {

/// The single predicate behind the wire protocol's delimiter-versus-value
/// dispatch: a tag byte below 0x10 delimits attribute groups.
pub open spec fn spec_is_delimiter_byte(b: u8) -> bool {
    b < 0x10
}

/// Exec twin of `spec_is_delimiter_byte`.
pub fn is_delimiter_byte(b: u8) -> (r: bool)
    ensures
        r == spec_is_delimiter_byte(b),
{
    b < 0x10
}

} // verus!
