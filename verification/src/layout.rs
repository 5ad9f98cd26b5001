//! Where the confirmation popup goes: the shares of the terminal that lie
//! before it, under it and after it. Turning shares into cells is left to
//! the terminal library.

use vstd::prelude::*;

verus! {

/// The popup's width, in percent of the terminal's.
pub const POPUP_WIDTH: u16 = 40;

/// The popup's height, in percent of the terminal's.
pub const POPUP_HEIGHT: u16 = 8;

/// The share on each side of a centred band that takes `percent` of the
/// whole: half of what is left, rounded down.
pub open spec fn margin_of(percent: int) -> int {
    (100 - percent) / 2
}

/// The three bands, in percent, that centre one of `percent` of the whole:
/// what lies before it, the band itself, what lies after it.
pub fn centered_bands(percent: u16) -> (bands: (u16, u16, u16))
    requires
        percent <= 100,
    ensures
        bands.0 == margin_of(percent as int),
        bands.1 == percent,
        bands.2 == margin_of(percent as int),
        bands.0 + bands.1 + bands.2 <= 100,
{
    let margin: u16 = (100 - percent) / 2;
    (margin, percent, margin)
}

} // verus!
