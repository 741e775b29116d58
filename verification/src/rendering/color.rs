use vstd::prelude::*;

verus! {

/// A colour by its red, green, blue and alpha channels; alpha 255 is opaque.
#[derive(Clone, Copy, Debug, PartialEq, Eq, Structural)]
pub struct Color {
    pub red: u8,
    pub green: u8,
    pub blue: u8,
    pub alpha: u8,
}

impl Color {
    /// An opaque colour.
    pub fn new_rgb(red: u8, green: u8, blue: u8) -> (c: Self)
        ensures
            c == (Color { red, green, blue, alpha: 255 }),
    {
        Color { red, green, blue, alpha: 255 }
    }
}

} // verus!
