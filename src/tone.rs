//! Image size and the last, integer step of tone mapping.

use vstd::prelude::*;

verus! {

/// The picture is 16 units wide for every 9 units of height.
pub const ASPECT_WIDTH: u64 = 16;

pub const ASPECT_HEIGHT: u64 = 9;

/// The height of a picture `width` pixels wide, rounded down.
pub fn image_height(width: u64) -> (r: u64)
    ensures
        r as int == (width as int * ASPECT_HEIGHT as int) / (ASPECT_WIDTH as int),
{
    width / ASPECT_WIDTH * ASPECT_HEIGHT + width % ASPECT_WIDTH * ASPECT_HEIGHT / ASPECT_WIDTH
}

/// The largest channel value.
pub const MAX_CHANNEL: u8 = 255;

/// The channel value of a gamma-corrected intensity `g`, given as
/// `scaled`, the integer part of `256 * g`: clamped into `0..=255`, so that
/// intensities at or below 0 give 0 and those from 255/256 up give 255.
pub fn quantize(scaled: i64) -> (r: u8)
    ensures
        scaled <= 0 ==> r == 0,
        0 <= scaled <= 255 ==> r == scaled,
        scaled >= 255 ==> r == MAX_CHANNEL,
{
    if scaled <= 0 {
        0
    } else if scaled >= 255 {
        MAX_CHANNEL
    } else {
        scaled as u8
    }
}

} // verus!
