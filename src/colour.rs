use vstd::prelude::*;

verus! {

/// An opaque-by-default RGBA colour, one byte per channel.
#[derive(Debug, Clone, Copy, PartialEq, Eq, Structural)]
pub struct Colour {
    pub r: u8,
    pub g: u8,
    pub b: u8,
    pub a: u8,
}

impl Colour {
    /// The four channels in the byte order a texture upload expects.
    pub open spec fn bytes(self) -> Seq<u8> {
        seq![self.r, self.g, self.b, self.a]
    }

    /// A fully opaque colour.
    pub fn new(r: u8, g: u8, b: u8) -> (c: Colour)
        ensures
            c == (Colour { r, g, b, a: u8::MAX }),
    {
        Colour { r, g, b, a: u8::MAX }
    }

    /// The channels as `[r, g, b, a]`.
    pub fn as_array(self) -> (arr: [u8; 4])
        ensures
            arr@ == self.bytes(),
    {
        [self.r, self.g, self.b, self.a]
    }
}

} // verus!
