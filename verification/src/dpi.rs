//! Pixel density, in pixels per inch, and its conversions.

use vstd::prelude::*;

verus! {

/// Pixel density in pixels per inch, horizontally and vertically.
#[derive(Clone, Copy, Debug, PartialEq, Eq, Structural)]
pub struct Dpi {
    pub x: u32,
    pub y: u32,
}

/// `value * hundredths / 100`, rounded to the nearest whole number (halves
/// upwards) and held at the largest 32-bit number.
pub open spec fn scaled(value: u32, hundredths: int) -> u32 {
    let rounded = (value * hundredths + 50) / 100;
    if rounded > u32::MAX {
        u32::MAX
    } else {
        rounded as u32
    }
}

/// Pixels per inch for pixels per centimetre: one inch is 2.54 cm.
pub open spec fn per_inch_from_per_centimeter(value: u32) -> u32 {
    scaled(value, 254)
}

/// Pixels per metre for pixels per inch: one metre is 39.37 inches.
pub open spec fn per_meter_from_per_inch(value: u32) -> u32 {
    scaled(value, 3937)
}

fn scale(value: u32, hundredths: u32) -> (r: u32)
    requires
        hundredths <= 10_000,
    ensures
        r == scaled(value, hundredths as int),
{
    assert(0 <= value * hundredths <= 0xFFFF_FFFF * 10_000) by (nonlinear_arith)
        requires
            0 <= value <= 0xFFFF_FFFF,
            0 <= hundredths <= 10_000,
    ;
    let exact: u64 = (value as u64) * (hundredths as u64) + 50;
    let rounded: u64 = exact / 100;
    if rounded > u32::MAX as u64 {
        u32::MAX
    } else {
        rounded as u32
    }
}

impl Dpi {
    /// The same density in both directions, in pixels per inch.
    pub fn new(v: u32) -> (dpi: Dpi)
        ensures
            dpi == (Dpi { x: v, y: v }),
    {
        Dpi { x: v, y: v }
    }

    /// A horizontal and a vertical density, in pixels per inch.
    pub fn from(x: u32, y: u32) -> (dpi: Dpi)
        ensures
            dpi == (Dpi { x, y }),
    {
        Dpi { x, y }
    }

    /// A horizontal and a vertical density given in pixels per centimetre.
    pub fn from_centimeter(x: u32, y: u32) -> (dpi: Dpi)
        ensures
            dpi == (Dpi {
                x: per_inch_from_per_centimeter(x),
                y: per_inch_from_per_centimeter(y),
            }),
    {
        Dpi { x: scale(x, 254), y: scale(y, 254) }
    }

    /// Horizontal resolution in pixels per metre.
    pub fn x_in_meters(&self) -> (r: u32)
        ensures
            r == per_meter_from_per_inch(self.x),
    {
        scale(self.x, 3937)
    }

    /// Vertical resolution in pixels per metre.
    pub fn y_in_meters(&self) -> (r: u32)
        ensures
            r == per_meter_from_per_inch(self.y),
    {
        scale(self.y, 3937)
    }
}

/// Decides the density of the output images: the density detected in the
/// input, unless none was detected or the detected one is to be ignored;
/// then `fallback` in both directions.
pub fn decide_output_dpi(detected: Option<Dpi>, ignore_detected_dpi: bool, fallback: u32) -> (dpi:
    Dpi)
    ensures
        dpi == (match detected {
            Some(found) if !ignore_detected_dpi => found,
            _ => Dpi { x: fallback, y: fallback },
        }),
{
    match detected {
        Some(found) => {
            if ignore_detected_dpi {
                Dpi::new(fallback)
            } else {
                found
            }
        },
        None => Dpi::new(fallback),
    }
}

} // verus!
