//! Terminal graphics transport: control-message framing, capability probing,
//! chunked transfer and backend selection for showing raster images in a
//! terminal emulator.

use vstd::prelude::*;

pub mod apc;
pub mod b64;
pub mod bytes;
pub mod decode;
pub mod graphic;
pub mod iterm;
pub mod kitty;
pub mod mosaic;
pub mod sixel;
pub mod term;
pub mod transmission;
pub mod utils;
pub mod viewer;

verus! {

/// Sum of two sizes.
pub fn add(left: usize, right: usize) -> (sum: usize)
    requires
        left + right <= usize::MAX,
    ensures
        sum == left + right,
{
    left + right
}

} // verus!
