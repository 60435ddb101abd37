//! Colour morphs of the pond frogs.

use vstd::prelude::*;

verus! {

/// Colour morph picked per-frog at spawn so the pond hosts a mix of
/// looks rather than a herd of identical green frogs.
#[derive(Clone, Copy, Debug, PartialEq, Eq, Structural)]
pub enum Morph {
    /// Bright pond-frog green.
    Green,
    /// Olive / camo — common in green frogs and bullfrogs.
    Olive,
    /// Brown / wood-frog colouring.
    Brown,
}

/// The light, mid and dark bands of a morph's back.
pub open spec fn morph_bands(m: Morph) -> ((u8, u8, u8), (u8, u8, u8), (u8, u8, u8)) {
    match m {
        Morph::Green => ((95, 200, 70), (55, 145, 45), (25, 90, 30)),
        Morph::Olive => ((130, 150, 60), (85, 110, 45), (45, 60, 25)),
        Morph::Brown => ((135, 100, 60), (95, 70, 40), (60, 40, 22)),
    }
}

/// Every morph's back bands go from light through mid to dark, each
/// channel no brighter than the band above it.
pub proof fn law_bands_darken(m: Morph)
    ensures
        ({
            let (l, mid, d) = morph_bands(m);
            &&& d.0 <= mid.0 <= l.0
            &&& d.1 <= mid.1 <= l.1
            &&& d.2 <= mid.2 <= l.2
        }),
{
}

impl Morph {
    /// Light band of the back.
    pub fn back_light(self) -> (c: (u8, u8, u8))
        ensures
            c == morph_bands(self).0,
    {
        match self {
            Morph::Green => (95, 200, 70),
            Morph::Olive => (130, 150, 60),
            Morph::Brown => (135, 100, 60),
        }
    }

    /// Mid band of the back.
    pub fn back_mid(self) -> (c: (u8, u8, u8))
        ensures
            c == morph_bands(self).1,
    {
        match self {
            Morph::Green => (55, 145, 45),
            Morph::Olive => (85, 110, 45),
            Morph::Brown => (95, 70, 40),
        }
    }

    /// Dark band of the back.
    pub fn back_dark(self) -> (c: (u8, u8, u8))
        ensures
            c == morph_bands(self).2,
    {
        match self {
            Morph::Green => (25, 90, 30),
            Morph::Olive => (45, 60, 25),
            Morph::Brown => (60, 40, 22),
        }
    }
}

} // verus!
