//! Flat RGB colors and the integer hue ramp used by the spatial effects.

use vstd::prelude::*;

verus! {

/// A display color, one byte per channel.
#[derive(Clone, Copy, Debug, PartialEq, Eq, Structural)]
pub struct Rgb {
    pub r: u8,
    pub g: u8,
    pub b: u8,
}

/// All channels off.
pub open spec fn black() -> Rgb {
    Rgb { r: 0, g: 0, b: 0 }
}

/// The rising channel inside a sixty-degree hue sector: 0 at the sector
/// start, close to the full channel level of 76 at its end.
pub open spec fn spec_ramp(frac: int) -> int {
    frac * 76 / 60
}

/// Color of hue `h` (degrees, `0 <= h < 360`) at full saturation and the
/// effects' fixed value level.  Six sectors of sixty degrees; in each sector
/// one channel is full, one is off and one ramps up.
pub open spec fn spec_hue_color(h: int) -> Rgb {
    let f = spec_ramp(h % 60) as u8;
    if h < 60 {
        Rgb { r: 76, g: 0, b: f }
    } else if h < 120 {
        Rgb { r: 76, g: f, b: 0 }
    } else if h < 180 {
        Rgb { r: f, g: 76, b: 0 }
    } else if h < 240 {
        Rgb { r: 0, g: 76, b: f }
    } else if h < 300 {
        Rgb { r: 0, g: f, b: 76 }
    } else {
        Rgb { r: f, g: 0, b: 76 }
    }
}

/// Color of hue `h` at full saturation and the effects' fixed value level.
pub fn hue_to_rgb(h: u16) -> (c: Rgb)
    requires
        h < 360,
    ensures
        c == spec_hue_color(h as int),
{
    let f_raw: u32 = ((h as u32) % 60) * 76 / 60;
    let f = f_raw as u8;
    proof {
        assert(f_raw == spec_ramp(h as int % 60));
        assert(f_raw <= 75);
    }
    if h < 60 {
        Rgb { r: 76, g: 0, b: f }
    } else if h < 120 {
        Rgb { r: 76, g: f, b: 0 }
    } else if h < 180 {
        Rgb { r: f, g: 76, b: 0 }
    } else if h < 240 {
        Rgb { r: 0, g: 76, b: f }
    } else if h < 300 {
        Rgb { r: 0, g: f, b: 76 }
    } else {
        Rgb { r: f, g: 0, b: 76 }
    }
}

} // verus!
