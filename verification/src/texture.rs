//! Images: grids of pixels that sprites and tiles are cut from.

use vstd::prelude::*;
use std::rc::Rc;

verus! {

/// A pixel: red, green, blue, alpha.
#[derive(Clone, Copy, Debug, PartialEq, Eq, Structural)]
pub struct Rgba(pub u8, pub u8, pub u8, pub u8);

/// Bytes per pixel.
pub const PIXEL_BYTES: usize = 4;

/// A grid of pixels, row by row from the top.
pub struct Bitmap {
    pub width: nat,
    pub height: nat,
    pub rows: Seq<Seq<Rgba>>,
}

/// The index of the first byte of the pixel in column `x` and row `y` of
/// an image `width` pixels wide.
pub open spec fn byte_offset(width: nat, x: int, y: int) -> int {
    (y * width + x) * 4
}

/// The pixel that begins at byte `at`.
pub open spec fn pixel_from(bytes: Seq<u8>, at: int) -> Rgba {
    Rgba(bytes[at], bytes[at + 1], bytes[at + 2], bytes[at + 3])
}

impl Bitmap {
    /// The grid has `height` rows of `width` pixels.
    pub open spec fn well_formed(self) -> bool {
        &&& self.rows.len() == self.height
        &&& forall|y: int| 0 <= y < self.height ==> (#[trigger] self.rows[y]).len() == self.width
    }

    /// Whether column `x` and row `y` lie on the grid.
    pub open spec fn holds(self, x: int, y: int) -> bool {
        0 <= x < self.width && 0 <= y < self.height
    }

    /// The grid that `bytes` encode: four bytes per pixel, row by row.
    pub open spec fn from_bytes(width: nat, height: nat, bytes: Seq<u8>) -> Bitmap {
        Bitmap {
            width,
            height,
            rows: Seq::new(
                height,
                |y: int| Seq::new(width, |x: int| pixel_from(bytes, byte_offset(width, x, y))),
            ),
        }
    }
}

/// The bytes of a pixel on the grid lie within the bytes of the grid, and
/// the pixels of a grid begin at different bytes.
pub proof fn lemma_byte_offset(width: nat, height: nat, x: int, y: int)
    by (nonlinear_arith)
    requires
        0 <= x < width,
        0 <= y < height,
    ensures
        0 <= byte_offset(width, x, y),
        byte_offset(width, x, y) + 4 <= width * height * 4,
        y * width + x < width * height,
{
}

/// Two pixels of a grid that begin at the same byte are the same pixel.
pub proof fn lemma_byte_offset_is_injective(width: nat, x1: int, y1: int, x2: int, y2: int)
    by (nonlinear_arith)
    requires
        0 <= x1 < width,
        0 <= x2 < width,
        0 <= y1,
        0 <= y2,
        (x1, y1) != (x2, y2),
    ensures
        byte_offset(width, x1, y1) + 4 <= byte_offset(width, x2, y2) || byte_offset(width, x2, y2)
            + 4 <= byte_offset(width, x1, y1),
{
}

/// An image of four bytes per pixel.
pub struct Texture {
    width: usize,
    height: usize,
    pixels: Vec<u8>,
}

impl View for Texture {
    type V = Bitmap;

    closed spec fn view(&self) -> Bitmap {
        Bitmap::from_bytes(self.width as nat, self.height as nat, self.pixels@)
    }
}

impl Texture {
    #[verifier::type_invariant]
    spec fn consistent(self) -> bool {
        self.pixels.len() == self.width * self.height * 4
    }

    /// Whether `len` bytes are the bytes of an image of this size.
    pub open spec fn fits(width: usize, height: usize, len: nat) -> bool {
        len == width * height * 4
    }

    /// An image of the given size from its bytes.
    pub fn new(width: usize, height: usize, pixels: Vec<u8>) -> (texture: Self)
        requires
            Self::fits(width, height, pixels@.len()),
        ensures
            texture@ == Bitmap::from_bytes(width as nat, height as nat, pixels@),
            texture@.well_formed(),
    {
        Self { width, height, pixels }
    }

    /// Width and height of the image.
    pub fn size(&self) -> (size: (usize, usize))
        ensures
            size.0 == self@.width,
            size.1 == self@.height,
            self@.well_formed(),
    {
        (self.width, self.height)
    }

    /// The pixel in column `x` and row `y`.
    pub fn pixel(&self, x: usize, y: usize) -> (pixel: Rgba)
        requires
            self@.holds(x as int, y as int),
        ensures
            pixel == self@.rows[y as int][x as int],
    {
        proof {
            use_type_invariant(self);
            lemma_byte_offset(self.width as nat, self.height as nat, x as int, y as int);
        }
        let at: usize = (y * self.width + x) * PIXEL_BYTES;
        Rgba(self.pixels[at], self.pixels[at + 1], self.pixels[at + 2], self.pixels[at + 3])
    }
}

/// Another handle to the same value, by `Rc::clone`: the standard library
/// documents that the clone points to the same allocation, so the value
/// behind it is the same.
#[verifier::external_body]
pub(crate) fn share<T>(value: &Rc<T>) -> (shared: Rc<T>)
    ensures
        shared == *value,
{
    Rc::clone(value)
}

} // verus!
