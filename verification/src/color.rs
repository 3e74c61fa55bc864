use vstd::prelude::*;

verus! {

/// An sRGB colour with three 8-bit channels.
#[derive(Clone, Copy)]
pub struct Srgb8(pub [u8; 3]);

/// An sRGB colour with an alpha channel, each channel 8 bits wide.
#[derive(Clone, Copy)]
pub struct Srgba8(pub [u8; 4]);

impl Srgb8 {
    /// The same colour, fully opaque.
    pub fn opaque(self) -> (r: Srgba8)
        ensures
            r.0@ == self.0@.push(0xffu8),
    {
        let out = Srgba8([self.0[0], self.0[1], self.0[2], 0xff]);
        assert(out.0@ =~= self.0@.push(0xffu8));
        out
    }
}

} // verus!
