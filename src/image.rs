//! A buffered image that is filled in any order and written out in the
//! canonical order: rows from the top of the picture down, each row from left
//! to right.

use vstd::prelude::*;
use crate::ppm::{encode, ppm_text, Rgb};

verus! {

/// What an image holds: its size and its pixels in the order of output.
pub struct ImageView {
    pub width: nat,
    pub height: nat,
    pub pixels: Seq<Rgb>,
}

/// The position in the output of the pixel in column `col` and row `row`,
/// where row 0 is the bottom of the picture and is written last.
pub open spec fn output_index(width: nat, height: nat, col: nat, row: nat) -> int {
    (height - 1 - row) * width + col
}

pub open spec fn black() -> Rgb {
    Rgb { r: 0, g: 0, b: 0 }
}

pub struct Image {
    width: usize,
    height: usize,
    pixels: Vec<Rgb>,
}

impl View for Image {
    type V = ImageView;

    closed spec fn view(&self) -> ImageView {
        ImageView { width: self.width as nat, height: self.height as nat, pixels: self.pixels@ }
    }
}

proof fn lemma_output_index_in_bounds(width: nat, height: nat, col: nat, row: nat)
    requires
        col < width,
        row < height,
    ensures
        0 <= output_index(width, height, col, row) < width * height,
{
    let k = (height - 1 - row) as nat;
    assert(k + 1 <= height);
    assert(k * width + width <= height * width) by (nonlinear_arith)
        requires
            k + 1 <= height,
    ;
    assert(0 <= k * width) by (nonlinear_arith);
    assert(height * width == width * height) by (nonlinear_arith);
}

impl Image {
    /// Every row holds `width` pixels and there are `height` rows.
    pub open spec fn wf(&self) -> bool {
        self@.pixels.len() == self@.width * self@.height
    }

    /// The pixel in column `col` and row `row` (row 0 at the bottom).
    pub open spec fn pixel(&self, col: nat, row: nat) -> Rgb {
        self@.pixels[output_index(self@.width, self@.height, col, row)]
    }

    /// A black image of the given size.
    pub fn new(width: usize, height: usize) -> (r: Image)
        requires
            width * height <= usize::MAX,
        ensures
            r.wf(),
            r@.width == width,
            r@.height == height,
            r@.pixels == Seq::new((width * height) as nat, |i: int| black()),
    {
        let n: usize = width * height;
        let mut pixels: Vec<Rgb> = Vec::new();
        let mut i: usize = 0;
        while i < n
            invariant
                i <= n,
                pixels@ == Seq::new(i as nat, |k: int| black()),
            decreases n - i,
        {
            pixels.push(Rgb { r: 0, g: 0, b: 0 });
            i = i + 1;
            assert(pixels@ =~= Seq::new(i as nat, |k: int| black()));
        }
        Image { width, height, pixels }
    }

    pub fn width(&self) -> (r: usize)
        ensures
            r == self@.width,
    {
        self.width
    }

    pub fn height(&self) -> (r: usize)
        ensures
            r == self@.height,
    {
        self.height
    }

    fn index(&self, col: usize, row: usize) -> (r: usize)
        requires
            self.wf(),
            col < self@.width,
            row < self@.height,
        ensures
            r == output_index(self@.width, self@.height, col as nat, row as nat),
            r < self@.pixels.len(),
    {
        let n = self.pixels.len();
        proof {
            lemma_output_index_in_bounds(self.width as nat, self.height as nat, col as nat, row as nat);
            let k = (self.height - 1 - row) as nat;
            assert(k * self.width + col <= k * self.width + self.width);
        }
        (self.height - 1 - row) * self.width + col
    }

    /// Sets the pixel in column `col` and row `row` (row 0 at the bottom).
    pub fn set(&mut self, col: usize, row: usize, p: Rgb)
        requires
            old(self).wf(),
            col < old(self)@.width,
            row < old(self)@.height,
        ensures
            final(self).wf(),
            final(self)@.width == old(self)@.width,
            final(self)@.height == old(self)@.height,
            final(self)@.pixels == old(self)@.pixels.update(
                output_index(old(self)@.width, old(self)@.height, col as nat, row as nat),
                p,
            ),
    {
        let i = self.index(col, row);
        self.pixels.set(i, p);
    }

    /// The pixel in column `col` and row `row` (row 0 at the bottom).
    pub fn get(&self, col: usize, row: usize) -> (r: Rgb)
        requires
            self.wf(),
            col < self@.width,
            row < self@.height,
        ensures
            r == self.pixel(col as nat, row as nat),
    {
        let i = self.index(col, row);
        self.pixels[i]
    }

    /// The image as a plain-text pixel map.
    pub fn to_ppm(&self) -> (r: Vec<u8>)
        ensures
            r@ == ppm_text(self@.width, self@.height, self@.pixels),
    {
        encode(self.width as u64, self.height as u64, &self.pixels)
    }
}

} // verus!
