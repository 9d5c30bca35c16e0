//! The settings a first run starts with.

use vstd::prelude::*;

verus! {

/// A setting that starts on.
pub fn yes() -> (r: bool)
    ensures
        r,
{
    true
}

/// The color a first run draws with, as red, green, blue and alpha: the
/// accent red of the light theme, fully opaque.
pub fn default_ink_color() -> (r: [u8; 4])
    ensures
        r@ == seq![0xC4u8, 0x3Eu8, 0x1Cu8, 0xFFu8],
{
    let r = [0xC4u8, 0x3Eu8, 0x1Cu8, 0xFFu8];
    assert(r@ =~= seq![0xC4u8, 0x3Eu8, 0x1Cu8, 0xFFu8]);
    r
}

} // verus!
