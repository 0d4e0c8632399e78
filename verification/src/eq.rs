//! Band layout of the 8-band parametric EQ (the filter maths runs in
//! floating point outside the library).

use vstd::prelude::*;

verus! {

/// Number of EQ bands.
pub const BAND_COUNT: usize = 8;

/// Filter shape of an EQ band.
#[derive(Clone, Copy, PartialEq, Eq, Structural, Debug)]
pub enum BandType {
    LowShelf,
    Peak,
    HighShelf,
}

/// Shape of band `i` in the default layout: a low shelf, six peaks, then a
/// high shelf (band 7 and any later index).
pub fn default_band_type(i: usize) -> (r: BandType)
    ensures
        r == if i == 0 {
            BandType::LowShelf
        } else if i <= 6 {
            BandType::Peak
        } else {
            BandType::HighShelf
        },
{
    match i {
        0 => BandType::LowShelf,
        1 | 2 | 3 | 4 | 5 | 6 => BandType::Peak,
        _ => BandType::HighShelf,
    }
}

} // verus!
