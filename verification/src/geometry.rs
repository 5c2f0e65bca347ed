//! Axis-aligned rectangles on the pixel grid, their centre, and cropping.

use vstd::prelude::*;
use crate::buffer::Image;
use crate::buffer::Point;

verus! {

/// An axis-aligned box given by the extreme coordinates it reaches. A box
/// with `left > right` or `top > bottom` is degenerate: it covers nothing.
#[derive(Clone, Copy, Debug, PartialEq, Eq, Structural)]
pub struct Rect {
    pub left: u32,
    pub top: u32,
    pub right: u32,
    pub bottom: u32,
}

impl Rect {
    /// The degenerate box that the bounding box of nothing is.
    pub open spec fn spec_empty() -> Rect {
        Rect { left: u32::MAX, top: u32::MAX, right: 0, bottom: 0 }
    }

    #[verifier::when_used_as_spec(spec_empty)]
    pub fn empty() -> (r: Rect)
        ensures
            r == Rect::empty(),
            r.is_degenerate(),
    {
        Rect { left: u32::MAX, top: u32::MAX, right: 0, bottom: 0 }
    }

    pub open spec fn spec_is_degenerate(&self) -> bool {
        self.left > self.right || self.top > self.bottom
    }

    /// Whether the box covers nothing.
    #[verifier::when_used_as_spec(spec_is_degenerate)]
    pub fn is_degenerate(&self) -> (r: bool)
        ensures
            r == self.is_degenerate(),
    {
        self.left > self.right || self.top > self.bottom
    }

    pub open spec fn spec_width(&self) -> u32 {
        if self.left <= self.right {
            (self.right - self.left) as u32
        } else {
            0
        }
    }

    /// Distance between the left and the right edge; 0 for a box whose
    /// edges are in the wrong order.
    #[verifier::when_used_as_spec(spec_width)]
    pub fn width(&self) -> (r: u32)
        ensures
            r == self.width(),
    {
        if self.left <= self.right {
            self.right - self.left
        } else {
            0
        }
    }

    pub open spec fn spec_height(&self) -> u32 {
        if self.top <= self.bottom {
            (self.bottom - self.top) as u32
        } else {
            0
        }
    }

    /// Distance between the top and the bottom edge; 0 for a box whose
    /// edges are in the wrong order.
    #[verifier::when_used_as_spec(spec_height)]
    pub fn height(&self) -> (r: u32)
        ensures
            r == self.height(),
    {
        if self.top <= self.bottom {
            self.bottom - self.top
        } else {
            0
        }
    }
}

/// The centre of a box: its top-left corner moved by half its width and
/// half its height, halves rounded down.
pub open spec fn rectangle_center(rect: Rect) -> Point {
    Point {
        x: (rect.left + rect.width() / 2) as u32,
        y: (rect.top + rect.height() / 2) as u32,
    }
}

/// The part of an image that a crop at `(x, y)` of the asked size keeps: the
/// corner is moved into the image and the size cut down to what is left of
/// the image from there.
pub open spec fn crop_window<T>(image: &Image<T>, x: u32, y: u32, width: u32, height: u32) -> (
    int,
    int,
    int,
    int,
) {
    let cx = if x <= image.width() {
        x as int
    } else {
        image.width() as int
    };
    let cy = if y <= image.height() {
        y as int
    } else {
        image.height() as int
    };
    let cw = if width <= image.width() - cx {
        width as int
    } else {
        image.width() - cx
    };
    let ch = if height <= image.height() - cy {
        height as int
    } else {
        image.height() - cy
    };
    (cx, cy, cw, ch)
}

/// `part` is the crop of `image` at `(x, y)` of the asked size.
pub open spec fn is_crop_of<T>(
    part: &Image<T>,
    image: &Image<T>,
    x: u32,
    y: u32,
    width: u32,
    height: u32,
) -> bool {
    let (cx, cy, cw, ch) = crop_window(image, x, y, width, height);
    &&& part.width() == cw
    &&& part.height() == ch
    &&& forall|px: int, py: int|
        part.in_bounds(px, py) ==> #[trigger] part.at(px, py) == image.at(cx + px, cy + py)
}

/// Copies the window at `(x, y)` of the asked size out of the image. A window
/// that reaches beyond the image is cut down to the image.
pub fn crop<T: Copy>(image: &Image<T>, x: u32, y: u32, width: u32, height: u32) -> (part: Image<T>)
    ensures
        is_crop_of(&part, image, x, y, width, height),
{
    let iw = image.width();
    let ih = image.height();
    let cx = if x <= iw {
        x
    } else {
        iw
    };
    let cy = if y <= ih {
        y
    } else {
        ih
    };
    let cw = if width <= iw - cx {
        width
    } else {
        iw - cx
    };
    let ch = if height <= ih - cy {
        height
    } else {
        ih - cy
    };
    if cw == 0 || ch == 0 {
        let none: Vec<T> = Vec::new();
        proof {
            assert(cw * ch == 0) by (nonlinear_arith)
                requires
                    cw == 0 || ch == 0,
            ;
        }
        return Image::from_pixels(cw, ch, none).unwrap();
    }
    proof {
        assert(cw * ch <= iw * ih) by (nonlinear_arith)
            requires
                0 <= cw <= iw,
                0 <= ch <= ih,
        ;
    }
    let first = image.get_pixel(cx, cy);
    let mut part: Image<T> = Image::new(cw, ch, first);
    let mut py: u32 = 0;
    while py < ch
        invariant
            py <= ch,
            image.width() == iw,
            image.height() == ih,
            part.width() == cw,
            part.height() == ch,
            cx + cw <= iw,
            cy + ch <= ih,
            forall|qx: int, qy: int|
                part.in_bounds(qx, qy) && qy < py ==> #[trigger] part.at(qx, qy) == image.at(
                    cx + qx,
                    cy + qy,
                ),
        decreases ch - py,
    {
        let mut px: u32 = 0;
        while px < cw
            invariant
                px <= cw,
                py < ch,
                image.width() == iw,
                image.height() == ih,
                part.width() == cw,
                part.height() == ch,
                cx + cw <= iw,
                cy + ch <= ih,
                forall|qx: int, qy: int|
                    part.in_bounds(qx, qy) && (qy < py || (qy == py && qx < px)) ==> #[trigger] part.at(
                        qx,
                        qy,
                    ) == image.at(cx + qx, cy + qy),
            decreases cw - px,
        {
            let value = image.get_pixel(cx + px, cy + py);
            part.put_pixel(px, py, value);
            px += 1;
        }
        py += 1;
    }
    part
}

} // verus!
