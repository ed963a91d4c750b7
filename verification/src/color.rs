//! The pixel type of the PWG-Raster body codec: an 8-bit sRGB triple.
use vstd::prelude::*;

verus! {

/// One pixel, in chunky 8-bit sRGB order.
#[derive(Debug, Clone, Copy, PartialEq, Eq, Structural)]
pub struct SrgbColor {
    pub r: u8,
    pub g: u8,
    pub b: u8,
}

impl SrgbColor {
    pub fn new(r: u8, g: u8, b: u8) -> (c: Self)
        ensures
            c == (SrgbColor { r, g, b }),
    {
        Self { r, g, b }
    }
}

/// The colour packed as `0x00RRGGBB`, the shape used by callers that keep
/// pixels as one machine word.
pub open spec fn color_from_u32(value: u32) -> SrgbColor {
    SrgbColor {
        r: ((value >> 16) & 0xff) as u8,
        g: ((value >> 8) & 0xff) as u8,
        b: (value & 0xff) as u8,
    }
}

impl From<u32> for SrgbColor {
    fn from(value: u32) -> (c: SrgbColor) {
        SrgbColor {
            r: ((value >> 16) & 0xff) as u8,
            g: ((value >> 8) & 0xff) as u8,
            b: (value & 0xff) as u8,
        }
    }
}

impl vstd::std_specs::convert::FromSpecImpl<u32> for SrgbColor {
    open spec fn obeys_from_spec() -> bool {
        true
    }

    open spec fn from_spec(value: u32) -> SrgbColor {
        color_from_u32(value)
    }
}

} // verus!
