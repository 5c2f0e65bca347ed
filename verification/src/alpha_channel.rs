//! Moving the alpha plane out of and back into a colour image.

use vstd::prelude::*;
use crate::buffer::GrayImage;
use crate::buffer::Image;
use crate::buffer::Rgba;
use crate::buffer::RgbaImage;

verus! {

/// `c` with its alpha channel set to `alpha`.
pub open spec fn with_alpha(c: Rgba, alpha: u8) -> Rgba {
    Rgba { r: c.r, g: c.g, b: c.b, a: alpha }
}

/// `mask` holds, pixel for pixel, the alpha channel of `image`.
pub open spec fn is_alpha_of(mask: &GrayImage, image: &RgbaImage) -> bool {
    &&& mask.same_size(image)
    &&& forall|x: int, y: int| image.in_bounds(x, y) ==> #[trigger] mask.at(x, y) == image.at(x, y).a
}

/// `after` is `before` with the alpha channel of each pixel taken from the
/// pixel of `mask` at the same coordinate; red, green and blue are kept.
pub open spec fn is_alpha_replaced(after: &RgbaImage, before: &RgbaImage, mask: &GrayImage) -> bool {
    &&& after.same_size(before)
    &&& forall|x: int, y: int|
        before.in_bounds(x, y) ==> #[trigger] after.at(x, y) == with_alpha(
            before.at(x, y),
            mask.at(x, y),
        )
}

/// Extracts the alpha channel of a colour image into a single-channel image
/// of the same size.
pub fn extract(image: &RgbaImage) -> (mask: GrayImage)
    ensures
        is_alpha_of(&mask, image),
{
    let width = image.width();
    let height = image.height();
    let mut mask: GrayImage = Image::new(width, height, 0u8);
    let mut y: u32 = 0;
    while y < height
        invariant
            y <= height,
            image.width() == width,
            image.height() == height,
            mask.same_size(image),
            forall|qx: int, qy: int|
                image.in_bounds(qx, qy) && qy < y ==> #[trigger] mask.at(qx, qy) == image.at(qx, qy).a,
        decreases height - y,
    {
        let mut x: u32 = 0;
        while x < width
            invariant
                x <= width,
                y < height,
                image.width() == width,
                image.height() == height,
                mask.same_size(image),
                forall|qx: int, qy: int|
                    image.in_bounds(qx, qy) && (qy < y || (qy == y && qx < x)) ==> #[trigger] mask.at(
                        qx,
                        qy,
                    ) == image.at(qx, qy).a,
            decreases width - x,
        {
            let alpha = image.get_pixel(x, y).a;
            mask.put_pixel(x, y, alpha);
            x += 1;
        }
        y += 1;
    }
    mask
}

/// Replaces the alpha channel of every pixel of `image` with the pixel of
/// `mask` at the same coordinate. The mask has to cover the image.
pub fn replace(image: &mut RgbaImage, mask: &GrayImage)
    requires
        old(image).width() <= mask.width(),
        old(image).height() <= mask.height(),
    ensures
        is_alpha_replaced(final(image), old(image), mask),
{
    let width = image.width();
    let height = image.height();
    let mut y: u32 = 0;
    while y < height
        invariant
            y <= height,
            image.width() == width,
            image.height() == height,
            image.same_size(old(image)),
            width <= mask.width(),
            height <= mask.height(),
            forall|qx: int, qy: int|
                image.in_bounds(qx, qy) ==> #[trigger] image.at(qx, qy) == (if qy < y {
                    with_alpha(old(image).at(qx, qy), mask.at(qx, qy))
                } else {
                    old(image).at(qx, qy)
                }),
        decreases height - y,
    {
        let mut x: u32 = 0;
        while x < width
            invariant
                x <= width,
                y < height,
                image.width() == width,
                image.height() == height,
                image.same_size(old(image)),
                width <= mask.width(),
                height <= mask.height(),
                forall|qx: int, qy: int|
                    image.in_bounds(qx, qy) ==> #[trigger] image.at(qx, qy) == (if qy < y || (qy
                        == y && qx < x) {
                        with_alpha(old(image).at(qx, qy), mask.at(qx, qy))
                    } else {
                        old(image).at(qx, qy)
                    }),
            decreases width - x,
        {
            let pixel = image.get_pixel(x, y);
            let alpha = mask.get_pixel(x, y);
            image.put_pixel(x, y, Rgba { r: pixel.r, g: pixel.g, b: pixel.b, a: alpha });
            x += 1;
        }
        y += 1;
    }
}

/// Round trip of the alpha plane: when the alpha plane extracted from
/// `source` replaces that of `target`, each pixel of the result has the alpha
/// value of `source` and the red, green and blue values of `target`.
pub proof fn lemma_alpha_round_trip(
    source: &RgbaImage,
    mask: &GrayImage,
    target: &RgbaImage,
    result: &RgbaImage,
    x: int,
    y: int,
)
    requires
        is_alpha_of(mask, source),
        target.same_size(source),
        is_alpha_replaced(result, target, mask),
        target.in_bounds(x, y),
    ensures
        result.at(x, y).a == source.at(x, y).a,
        result.at(x, y).r == target.at(x, y).r,
        result.at(x, y).g == target.at(x, y).g,
        result.at(x, y).b == target.at(x, y).b,
{
    assert(result.at(x, y) == with_alpha(target.at(x, y), mask.at(x, y)));
    assert(mask.at(x, y) == source.at(x, y).a);
}

} // verus!
