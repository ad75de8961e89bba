//! The universal fallback: the image is scaled to the terminal's cell grid,
//! two pixel rows to a text row, and drawn with block characters.

use vstd::prelude::*;
use crate::graphic::Capability;

verus! {

/// The fallback backend.
pub struct Mosaic;

/// `orig_this * other / orig_other`, rounded to the nearest whole number
/// with halves going up, and capped at `u32::MAX`. With a zero divisor the
/// result is zero when the product is zero, else `u32::MAX`.
pub open spec fn scaled(other: u32, orig_this: u32, orig_other: u32) -> int {
    if orig_other == 0 {
        if orig_this == 0 || other == 0 {
            0
        } else {
            u32::MAX as int
        }
    } else {
        let rounded = (2 * (orig_this * other) + orig_other) / (2 * orig_other);
        if rounded > u32::MAX {
            u32::MAX as int
        } else {
            rounded
        }
    }
}

/// The smaller of a limit, if there is one, and the terminal's dimension.
pub open spec fn limited(limit: Option<u32>, terminal: u32) -> int {
    match limit {
        Some(l) => if l <= terminal {
            l as int
        } else {
            terminal as int
        },
        None => terminal as int,
    }
}

/// The size at which an image is drawn, in pixels.
///
/// The target is the terminal's width, and twice its height, each cut by
/// its limit. The image takes the target's full height if the width that
/// keeps its proportions fits; else it takes the full width and the
/// height that keeps its proportions.
pub open spec fn fitted(
    orig_width: u32,
    orig_height: u32,
    terminal_width: u32,
    terminal_height: u32,
    max_width: Option<u32>,
    max_height: Option<u32>,
) -> (int, int) {
    let target_width = limited(max_width, terminal_width);
    let target_height = 2 * limited(max_height, terminal_height);
    let calculated_width = scaled(target_height as u32, orig_width, orig_height);
    if calculated_width <= target_width {
        (calculated_width, target_height)
    } else {
        (target_width, scaled(target_width as u32, orig_height, orig_width))
    }
}

/// Scales one dimension by the ratio of the other.
pub fn scale_dimension(other: u32, orig_this: u32, orig_other: u32) -> (size: u32)
    ensures
        size == scaled(other, orig_this, orig_other),
{
    if orig_other == 0 {
        if orig_this == 0 || other == 0 {
            0
        } else {
            u32::MAX
        }
    } else {
        assert(orig_this * other <= 0xffff_ffff * 0xffff_ffff) by (nonlinear_arith)
            requires
                orig_this <= 0xffff_ffff,
                other <= 0xffff_ffff,
        ;
        let product: u128 = orig_this as u128 * other as u128;
        let rounded: u128 = (2 * product + orig_other as u128) / (2 * orig_other as u128);
        if rounded > u32::MAX as u128 {
            u32::MAX
        } else {
            rounded as u32
        }
    }
}

/// Fits an image into the terminal, keeping its proportions.
pub fn fit_to_size(
    orig_width: u32,
    orig_height: u32,
    terminal_width: u32,
    terminal_height: u32,
    max_width: Option<u32>,
    max_height: Option<u32>,
) -> (size: (u32, u32))
    requires
        2 * limited(max_height, terminal_height) <= u32::MAX,
    ensures
        (size.0 as int, size.1 as int) == fitted(
            orig_width,
            orig_height,
            terminal_width,
            terminal_height,
            max_width,
            max_height,
        ),
{
    let target_width: u32 = match max_width {
        Some(max_width) => if max_width <= terminal_width {
            max_width
        } else {
            terminal_width
        },
        None => terminal_width,
    };
    let rows: u32 = match max_height {
        Some(max_height) => if max_height <= terminal_height {
            max_height
        } else {
            terminal_height
        },
        None => terminal_height,
    };
    let target_height: u32 = 2 * rows;
    let calculated_width: u32 = scale_dimension(target_height, orig_width, orig_height);
    if calculated_width <= target_width {
        (calculated_width, target_height)
    } else {
        (target_width, scale_dimension(target_width, orig_height, orig_width))
    }
}

/// The size at which the fallback draws an image: the image's own size
/// when the terminal's size in cells is unknown or equals it, else the
/// image fitted into the terminal.
pub open spec fn drawn_size(img_width: u32, img_height: u32, cells: Option<(u16, u16)>) -> (
    int,
    int,
) {
    match cells {
        Some(c) => if c.0 as u32 != img_width || c.1 as u32 != img_height {
            fitted(img_width, img_height, c.0 as u32, c.1 as u32, None, None)
        } else {
            (img_width as int, img_height as int)
        },
        None => (img_width as int, img_height as int),
    }
}

impl Mosaic {
    /// The backend's name.
    pub fn name(&self) -> (name: &'static str)
        ensures
            name@ == "mosaic"@,
    {
        "mosaic"
    }

    /// The fallback needs nothing from the terminal.
    pub fn supported(&self) -> (capability: Capability)
        ensures
            capability == Capability::Supported,
    {
        Capability::Supported
    }

    /// Decides the size at which an image is drawn, given the terminal's
    /// size in cells as (columns, rows) if it is known.
    pub fn display(&self, img_width: u32, img_height: u32, cells: Option<(u16, u16)>) -> (size: (
        u32,
        u32,
    ))
        ensures
            (size.0 as int, size.1 as int) == drawn_size(img_width, img_height, cells),
    {
        match cells {
            Some((w, h)) => {
                if w as u32 != img_width || h as u32 != img_height {
                    fit_to_size(img_width, img_height, w as u32, h as u32, None, None)
                } else {
                    (img_width, img_height)
                }
            },
            None => (img_width, img_height),
        }
    }
}

} // verus!
