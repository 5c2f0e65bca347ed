//! Pixel values and owned, row-major pixel grids.

use vstd::prelude::*;

verus! {

/// A four-channel, 8-bit colour. Two colours are equal exactly when all
/// four channels are.
#[derive(Clone, Copy, Debug, PartialEq, Eq, Hash, Structural)]
pub struct Rgba {
    pub r: u8,
    pub g: u8,
    pub b: u8,
    pub a: u8,
}

/// An integer pixel coordinate; `x` grows to the right, `y` downwards.
#[derive(Clone, Copy, Debug, PartialEq, Eq, Hash, Structural)]
pub struct Point {
    pub x: u32,
    pub y: u32,
}

/// A `width` x `height` grid of pixels, stored row by row from the top-left
/// corner.
pub struct Image<T> {
    width: u32,
    height: u32,
    pixels: Vec<T>,
}

/// One flag per pixel: whether the pixel's colour is close enough to the key
/// colour to be flooded.
pub type MatchMask = Image<bool>;

/// The colour plane of a scan.
pub type RgbaImage = Image<Rgba>;

/// A single-channel plane: a mask, an alpha plane or an edge map.
pub type GrayImage = Image<u8>;

/// One component id per pixel; 0 is the background.
pub type LabelImage = Image<u32>;

/// Row-major position of the pixel `(x, y)` in a grid that is `width` wide.
pub open spec fn pixel_index(width: int, x: int, y: int) -> int {
    y * width + x
}

/// Every in-bounds coordinate has a position inside the grid, from which the
/// coordinate can be had back: distinct coordinates have distinct positions.
pub proof fn lemma_pixel_index_bounds(width: int, height: int, x: int, y: int)
    requires
        0 <= x < width,
        0 <= y < height,
    ensures
        0 <= pixel_index(width, x, y) < width * height,
        pixel_index(width, x, y) / width == y,
        pixel_index(width, x, y) % width == x,
{
    assert(y * width + x < width * height) by (nonlinear_arith)
        requires
            0 <= x < width,
            0 <= y < height,
    ;
    assert(0 <= y * width) by (nonlinear_arith)
        requires
            0 <= y,
            0 < width,
    ;
    vstd::arithmetic::div_mod::lemma_fundamental_div_mod_converse(y * width + x, width, y, x);
}

/// Every position inside the grid belongs to an in-bounds coordinate: its
/// column is the remainder and its row the quotient by the width.
pub proof fn lemma_pixel_index_coords(width: int, height: int, i: int)
    requires
        0 <= i < width * height,
        0 < width,
    ensures
        0 <= i % width < width,
        0 <= i / width < height,
        pixel_index(width, i % width, i / width) == i,
{
    vstd::arithmetic::div_mod::lemma_fundamental_div_mod(i, width);
    vstd::arithmetic::div_mod::lemma_mod_bound(i, width);
    let q = i / width;
    let r = i % width;
    assert(width * q == q * width) by (nonlinear_arith);
    assert(0 <= q < height) by (nonlinear_arith)
        requires
            0 <= r < width,
            0 <= q * width + r < width * height,
            0 < width,
    ;
}

impl<T> Image<T> {
    #[verifier::type_invariant]
    spec fn well_formed(self) -> bool {
        self.pixels.len() == self.width * self.height
    }

    /// The pixels, row by row.
    pub closed spec fn view(&self) -> Seq<T> {
        self.pixels@
    }

    pub closed spec fn spec_width(&self) -> u32 {
        self.width
    }

    pub closed spec fn spec_height(&self) -> u32 {
        self.height
    }

    /// The pixel at `(x, y)`.
    pub open spec fn at(&self, x: int, y: int) -> T {
        self@[pixel_index(self.width() as int, x, y)]
    }

    /// Whether `(x, y)` lies inside the grid.
    pub open spec fn in_bounds(&self, x: int, y: int) -> bool {
        0 <= x < self.width() && 0 <= y < self.height()
    }

    /// Whether two grids have the same dimensions.
    pub open spec fn same_size<U>(&self, other: &Image<U>) -> bool {
        self.width() == other.width() && self.height() == other.height()
    }

    /// Wraps `pixels` as a `width` x `height` grid; `None` when the count of
    /// pixels is not `width * height`.
    pub fn from_pixels(width: u32, height: u32, pixels: Vec<T>) -> (r: Option<Self>)
        ensures
            r.is_some() <==> pixels@.len() == width * height,
            r matches Some(img) ==> img@ == pixels@ && img.width() == width
                && img.height() == height,
    {
        assert(0 <= width * height <= u64::MAX) by (nonlinear_arith)
            requires
                0 <= width <= u32::MAX,
                0 <= height <= u32::MAX,
        ;
        let expected: u64 = (width as u64) * (height as u64);
        if pixels.len() as u64 == expected {
            Some(Image { width, height, pixels })
        } else {
            None
        }
    }

    /// Gives the pixels back, row by row.
    pub fn into_pixels(self) -> (r: Vec<T>)
        ensures
            r@ == self@,
    {
        self.pixels
    }

    /// The pixels, row by row.
    pub fn pixels(&self) -> (r: &Vec<T>)
        ensures
            r@ == self@,
    {
        &self.pixels
    }

    /// The number of columns. Every image holds exactly `width * height`
    /// pixels.
    #[verifier::when_used_as_spec(spec_width)]
    pub fn width(&self) -> (r: u32)
        ensures
            r == self.width(),
            self@.len() == self.width() * self.height(),
            self@.len() <= usize::MAX,
    {
        proof {
            use_type_invariant(self);
        }
        self.width
    }

    /// The number of rows. Every image holds exactly `width * height` pixels.
    #[verifier::when_used_as_spec(spec_height)]
    pub fn height(&self) -> (r: u32)
        ensures
            r == self.height(),
            self@.len() == self.width() * self.height(),
            self@.len() <= usize::MAX,
    {
        proof {
            use_type_invariant(self);
        }
        self.height
    }
}

impl<T: Copy> Image<T> {
    /// A `width` x `height` grid in which every pixel is `fill`.
    pub fn new(width: u32, height: u32, fill: T) -> (r: Self)
        requires
            width * height <= usize::MAX,
        ensures
            r.width() == width,
            r.height() == height,
            r@ == Seq::new((width * height) as nat, |i: int| fill),
    {
        assert(0 <= width * height) by (nonlinear_arith)
            requires
                0 <= width,
                0 <= height,
        ;
        let n: usize = (width as usize) * (height as usize);
        let mut pixels: Vec<T> = Vec::with_capacity(n);
        let mut i: usize = 0;
        while i < n
            invariant
                i <= n,
                pixels@ == Seq::new(i as nat, |k: int| fill),
            decreases n - i,
        {
            pixels.push(fill);
            i += 1;
        }
        Image { width, height, pixels }
    }

    /// Row-major position of the in-bounds pixel `(x, y)`.
    pub fn offset(&self, x: u32, y: u32) -> (r: usize)
        requires
            self.in_bounds(x as int, y as int),
        ensures
            r == pixel_index(self.width() as int, x as int, y as int),
            r < self@.len(),
    {
        proof {
            use_type_invariant(self);
            lemma_pixel_index_bounds(self.width as int, self.height as int, x as int, y as int);
        }
        (y as usize) * (self.width as usize) + (x as usize)
    }

    /// Reads the pixel at `(x, y)`.
    pub fn get_pixel(&self, x: u32, y: u32) -> (r: T)
        requires
            self.in_bounds(x as int, y as int),
        ensures
            r == self.at(x as int, y as int),
    {
        proof {
            use_type_invariant(self);
            lemma_pixel_index_bounds(self.width as int, self.height as int, x as int, y as int);
        }
        let i: usize = (y as usize) * (self.width as usize) + (x as usize);
        self.pixels[i]
    }

    /// Overwrites the pixel at `(x, y)`; every other pixel stays.
    pub fn put_pixel(&mut self, x: u32, y: u32, value: T)
        requires
            old(self).in_bounds(x as int, y as int),
        ensures
            final(self).same_size(old(self)),
            final(self)@.len() == old(self)@.len(),
            final(self)@ == old(self)@.update(
                pixel_index(old(self).width() as int, x as int, y as int),
                value,
            ),
            forall|qx: int, qy: int|
                old(self).in_bounds(qx, qy) ==> #[trigger] final(self).at(qx, qy) == (if qx == x
                    && qy == y {
                    value
                } else {
                    old(self).at(qx, qy)
                }),
    {
        proof {
            use_type_invariant(&*self);
            lemma_pixel_index_bounds(self.width as int, self.height as int, x as int, y as int);
        }
        let i: usize = (y as usize) * (self.width as usize) + (x as usize);
        self.pixels[i] = value;
        proof {
            assert forall|qx: int, qy: int| old(self).in_bounds(qx, qy) implies #[trigger] self.at(
                qx,
                qy,
            ) == (if qx == x && qy == y {
                value
            } else {
                old(self).at(qx, qy)
            }) by {
                lemma_pixel_index_bounds(self.width as int, self.height as int, qx, qy);
            }
        }
    }
}

} // verus!
