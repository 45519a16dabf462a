//! The plain-text pixel map ("P3") format.

use vstd::prelude::*;

verus! {

/// ASCII code of the digit `0`.
pub const ZERO_DIGIT: u8 = 48;

/// The decimal digits of `n`, most significant first, without leading zeros.
pub open spec fn decimal(n: nat) -> Seq<u8>
    decreases n,
{
    if n < 10 {
        seq![(ZERO_DIGIT + n) as u8]
    } else {
        decimal(n / 10) + seq![(ZERO_DIGIT + n % 10) as u8]
    }
}

/// Appends the decimal digits of `n` to `out`.
pub fn push_decimal(out: &mut Vec<u8>, n: u64)
    ensures
        final(out)@ == old(out)@ + decimal(n as nat),
    decreases n,
{
    if n >= 10 {
        push_decimal(out, n / 10);
    }
    out.push(ZERO_DIGIT + (n % 10) as u8);
    assert(out@ =~= old(out)@ + decimal(n as nat));
}


/// One quantised pixel: red, green and blue on the scale 0..=255.
#[derive(Clone, Copy, Debug, PartialEq, Eq, Structural)]
pub struct Rgb {
    pub r: u8,
    pub g: u8,
    pub b: u8,
}

pub const SPACE: u8 = 32;

pub const NEWLINE: u8 = 10;

/// The text line of one pixel: `"<r> <g> <b>\n"`.
pub open spec fn pixel_line(p: Rgb) -> Seq<u8> {
    decimal(p.r as nat) + seq![SPACE] + decimal(p.g as nat) + seq![SPACE] + decimal(p.b as nat)
        + seq![NEWLINE]
}

/// The lines of a sequence of pixels, in order.
pub open spec fn pixel_lines(s: Seq<Rgb>) -> Seq<u8>
    decreases s.len(),
{
    if s.len() == 0 {
        Seq::empty()
    } else {
        pixel_lines(s.drop_last()) + pixel_line(s.last())
    }
}

/// The header: `"P3\n<width> <height>\n255\n"`.
pub open spec fn header(width: nat, height: nat) -> Seq<u8> {
    seq![80u8, 51u8, NEWLINE] + decimal(width) + seq![SPACE] + decimal(height) + seq![NEWLINE]
        + decimal(255) + seq![NEWLINE]
}

/// Appends the text line of `p` to `out`.
pub fn push_pixel_line(out: &mut Vec<u8>, p: Rgb)
    ensures
        final(out)@ == old(out)@ + pixel_line(p),
{
    push_decimal(out, p.r as u64);
    out.push(SPACE);
    push_decimal(out, p.g as u64);
    out.push(SPACE);
    push_decimal(out, p.b as u64);
    out.push(NEWLINE);
    assert(out@ =~= old(out)@ + pixel_line(p));
}

/// Appends the header of a `width` by `height` image to `out`.
pub fn push_header(out: &mut Vec<u8>, width: u64, height: u64)
    ensures
        final(out)@ == old(out)@ + header(width as nat, height as nat),
{
    out.push(80u8);
    out.push(51u8);
    out.push(NEWLINE);
    push_decimal(out, width);
    out.push(SPACE);
    push_decimal(out, height);
    out.push(NEWLINE);
    push_decimal(out, 255);
    out.push(NEWLINE);
    assert(out@ =~= old(out)@ + header(width as nat, height as nat));
}

/// The whole file: the header, then one line per pixel.
pub open spec fn ppm_text(width: nat, height: nat, pixels: Seq<Rgb>) -> Seq<u8> {
    header(width, height) + pixel_lines(pixels)
}

/// Encodes `pixels`, given in the order in which they are written, as a
/// `width` by `height` pixel map.
pub fn encode(width: u64, height: u64, pixels: &Vec<Rgb>) -> (r: Vec<u8>)
    ensures
        r@ == ppm_text(width as nat, height as nat, pixels@),
{
    let mut out: Vec<u8> = Vec::new();
    push_header(&mut out, width, height);
    let mut i: usize = 0;
    while i < pixels.len()
        invariant
            i <= pixels@.len(),
            out@ == header(width as nat, height as nat) + pixel_lines(pixels@.subrange(0, i as int)),
        decreases pixels@.len() - i,
    {
        push_pixel_line(&mut out, pixels[i]);
        proof {
            let s = pixels@.subrange(0, i + 1);
            assert(s.drop_last() =~= pixels@.subrange(0, i as int));
        }
        i = i + 1;
    }
    assert(pixels@.subrange(0, i as int) =~= pixels@);
    out
}

} // verus!
