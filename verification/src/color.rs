use vstd::prelude::*;

verus! {

/// An RGB colour with 8-bit channels.
#[derive(Clone, Copy, PartialEq, Eq, Debug)]
pub struct Color {
    pub red: u8,
    pub green: u8,
    pub blue: u8,
}

impl Color {
    /// Builds a colour from its three channels.
    pub fn new(red: u8, green: u8, blue: u8) -> (c: Color)
        ensures
            c.red == red,
            c.green == green,
            c.blue == blue,
    {
        Color { red, green, blue }
    }
}

/// The opaque RGBA form of a colour.
pub fn color_to_rgba(color: Color) -> (rgba: [u8; 4])
    ensures
        rgba@ == seq![color.red, color.green, color.blue, 255u8],
{
    [color.red, color.green, color.blue, 255]
}

/// The colour formed by the first three channels of an RGBA quadruple.
pub fn rgba_to_color(rgba: [u8; 4]) -> (c: Color)
    ensures
        c.red == rgba@[0],
        c.green == rgba@[1],
        c.blue == rgba@[2],
{
    Color::new(rgba[0], rgba[1], rgba[2])
}

} // verus!
