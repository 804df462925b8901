use vstd::prelude::*;
use rand::Rng;

verus! {

/// An 8-bit RGBA colour, as the renderer takes it.
#[derive(Clone, Copy, PartialEq, Eq, Structural, Debug)]
pub struct Color {
    pub r: u8,
    pub g: u8,
    pub b: u8,
    pub a: u8,
}

impl Color {
    /// An opaque colour from its red, green and blue channels.
    pub fn rgb(r: u8, g: u8, b: u8) -> (c: Color)
        ensures
            c == (Color { r, g, b, a: 255 }),
    {
        Color { r, g, b, a: 255 }
    }

    /// An opaque colour whose three channels are each drawn uniformly from
    /// `0..=255` by the thread-local random number generator.
    pub fn random() -> (c: Color)
        ensures
            c.a == 255,
    {
        let r = random_channel();
        let g = random_channel();
        let b = random_channel();
        Color::rgb(r, g, b)
    }
}

/// Calls `rand::thread_rng().gen_range(0..=255)` for a `u8`. Nothing is
/// claimed of the value: every `u8` lies in the range, and which one comes
/// out rests on the thread's random state.
#[verifier::external_body]
fn random_channel() -> (v: u8) {
    rand::thread_rng().gen_range(0..=255u8)
}

} // verus!
