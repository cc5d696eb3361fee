//! Textures, as far as they are not arithmetic: a solid colour, the choice
//! between the two fields of a checker board, and the pixels of an image.

use vstd::prelude::*;
use crate::vector::Color;

verus! {

/// One colour everywhere.
#[derive(Clone, Copy, Debug, PartialEq, Eq, Structural)]
pub struct SolidColor {
    pub color: Color,
}

impl SolidColor {
    pub fn new(color: Color) -> (r: SolidColor)
        ensures
            r.color == color,
    {
        SolidColor { color }
    }

    /// The colour, wherever the surface is looked at.
    pub fn value(&self) -> (r: Color)
        ensures
            r == self.color,
    {
        self.color
    }
}

/// A checker board in space, with one colour on the even cells and another
/// on the odd ones.
#[derive(Clone, Copy, Debug, PartialEq, Eq, Structural)]
pub struct CheckerTexture {
    pub even: Color,
    pub odd: Color,
}

impl CheckerTexture {
    pub fn with_colors(even: Color, odd: Color) -> (r: CheckerTexture)
        ensures
            r.even == even,
            r.odd == odd,
    {
        CheckerTexture { even, odd }
    }

    /// Whether the cell whose three whole-numbered coordinates add up to
    /// `cell_sum` is an even one: the sum is even, negative sums included.
    pub fn is_even(cell_sum: i32) -> (r: bool)
        ensures
            r == (cell_sum % 2 == 0),
    {
        cell_sum % 2 == 0
    }

    /// The colour of the cell whose three whole-numbered coordinates add up
    /// to `cell_sum`: the even colour where the sum is even, negative sums
    /// included.
    pub fn value(&self, cell_sum: i32) -> (r: Color)
        ensures
            r == if cell_sum % 2 == 0 {
                self.even
            } else {
                self.odd
            },
    {
        if Self::is_even(cell_sum) {
            self.even
        } else {
            self.odd
        }
    }
}

/// A picture that is looked up pixel by pixel: rows from the top, three
/// bytes (red, green, blue) for each pixel.
#[derive(Debug)]
pub struct ImageTexture {
    width: u32,
    height: u32,
    data: Vec<u8>,
}

impl ImageTexture {
    /// The number of pixels in a row.
    pub closed spec fn columns(&self) -> int {
        self.width as int
    }

    /// The number of rows.
    pub closed spec fn rows(&self) -> int {
        self.height as int
    }

    /// The bytes of the picture, row by row.
    pub closed spec fn bytes(&self) -> Seq<u8> {
        self.data@
    }

    /// There are three bytes for every pixel.
    #[verifier::type_invariant]
    pub closed spec fn well_formed(&self) -> bool {
        self.data@.len() == 3 * self.width * self.height
    }

    /// The place of the first byte of the pixel in column `i` of row `j`.
    pub open spec fn offset(&self, i: int, j: int) -> int {
        3 * (j * self.columns() + i)
    }

    /// The picture decoded from a file on disk: `width` pixels in each of
    /// `height` rows, whose bytes are `data`. There is no picture where the
    /// number of bytes is not three for each pixel.
    pub fn from_file(width: u32, height: u32, data: Vec<u8>) -> (r: Option<ImageTexture>)
        ensures
            r is Some <==> data@.len() == 3 * width * height,
            r matches Some(image) ==> image.columns() == width && image.rows() == height
                && image.bytes() == data@,
    {
        assert(width * height <= 0xFFFF_FFFF * 0xFFFF_FFFF) by (nonlinear_arith)
            requires
                0 <= width <= 0xFFFF_FFFF,
                0 <= height <= 0xFFFF_FFFF,
        ;
        let pixels: u64 = (width as u64) * (height as u64);
        assert(3 * width * height == 3 * (width * height)) by (nonlinear_arith);
        let wanted: u128 = 3 * (pixels as u128);
        if data.len() as u128 == wanted {
            Some(ImageTexture { width, height, data })
        } else {
            None
        }
    }

    /// The number of pixels in a row.
    pub fn width(&self) -> (r: u32)
        ensures
            r == self.columns(),
    {
        self.width
    }

    /// The number of rows.
    pub fn height(&self) -> (r: u32)
        ensures
            r == self.rows(),
    {
        self.height
    }

    /// The red, green and blue of the pixel in column `i` of row `j`.
    pub fn pixel(&self, i: u32, j: u32) -> (r: [u8; 3])
        requires
            i < self.columns(),
            j < self.rows(),
        ensures
            0 <= self.offset(i as int, j as int),
            self.offset(i as int, j as int) + 2 < self.bytes().len(),
            r[0] == self.bytes()[self.offset(i as int, j as int)],
            r[1] == self.bytes()[self.offset(i as int, j as int) + 1],
            r[2] == self.bytes()[self.offset(i as int, j as int) + 2],
    {
        let len = self.data.len();
        proof {
            use_type_invariant(self);
            let w = self.width as int;
            let h = self.height as int;
            assert(j * w + i < w * h) by (nonlinear_arith)
                requires
                    0 <= i < w,
                    0 <= j < h,
            ;
            assert(0 <= j * w) by (nonlinear_arith)
                requires
                    0 <= j,
                    0 <= w,
            ;
            assert(3 * w * h == 3 * (w * h)) by (nonlinear_arith);
            assert(len == 3 * (w * h));
            assert(3 * (j * w + i) + 2 < len);
            assert((j as usize) * (self.width as usize) == j * w);
        }
        let at: usize = 3 * ((j as usize) * (self.width as usize) + (i as usize));
        [self.data[at], self.data[at + 1], self.data[at + 2]]
    }

    /// The pixel in column `i` of row `j`, or nothing where the picture has
    /// no such pixel.
    pub fn pixel_checked(&self, i: u32, j: u32) -> (r: Option<[u8; 3]>)
        ensures
            r is Some <==> i < self.columns() && j < self.rows(),
            r matches Some(rgb) ==> {
                &&& 0 <= self.offset(i as int, j as int)
                &&& self.offset(i as int, j as int) + 2 < self.bytes().len()
                &&& rgb[0] == self.bytes()[self.offset(i as int, j as int)]
                &&& rgb[1] == self.bytes()[self.offset(i as int, j as int) + 1]
                &&& rgb[2] == self.bytes()[self.offset(i as int, j as int) + 2]
            },
    {
        if i < self.width && j < self.height {
            Some(self.pixel(i, j))
        } else {
            None
        }
    }
}

} // verus!
