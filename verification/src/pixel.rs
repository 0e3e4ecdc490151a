//! Device colours: what a raster holds and what a palette is given as.
use vstd::prelude::*;

verus! {

/// An opaque colour of a display device: three channels of eight bits.
#[derive(Clone, Copy, Debug, PartialEq, Eq, Structural)]
pub struct Rgb {
    pub red: u8,
    pub green: u8,
    pub blue: u8,
}

/// One pixel of a raster: a device colour and its coverage.
#[derive(Clone, Copy, Debug, PartialEq, Eq, Structural)]
pub struct Pixel {
    pub red: u8,
    pub green: u8,
    pub blue: u8,
    pub alpha: u8,
}

impl Pixel {
    /// The colour of the pixel, without its alpha channel.
    pub open spec fn color(self) -> Rgb {
        Rgb { red: self.red, green: self.green, blue: self.blue }
    }

    /// The pixel with its colour replaced and its alpha channel kept.
    pub open spec fn recolored(self, rgb: Rgb) -> Pixel {
        Pixel { red: rgb.red, green: rgb.green, blue: rgb.blue, alpha: self.alpha }
    }

    /// The colour of the pixel, without its alpha channel.
    pub fn rgb(self) -> (rgb: Rgb)
        ensures
            rgb == self.color(),
    {
        Rgb { red: self.red, green: self.green, blue: self.blue }
    }

    /// Replaces the colour of the pixel and keeps its alpha channel.
    pub fn with_rgb(self, rgb: Rgb) -> (pixel: Pixel)
        ensures
            pixel == self.recolored(rgb),
    {
        Pixel { red: rgb.red, green: rgb.green, blue: rgb.blue, alpha: self.alpha }
    }
}

} // verus!
