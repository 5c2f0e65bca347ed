//! The kernels that this library calls but does not implement: morphology,
//! component labelling, line detection, border following, convex hull and
//! sorting. Every function here states what is taken on trust of the crate
//! it calls.

use vstd::prelude::*;
use crate::buffer::pixel_index;
use crate::buffer::GrayImage;
use crate::buffer::Image;
use crate::buffer::LabelImage;
use crate::buffer::Point;
use crate::drawing::adjacent;

verus! {

/// The distance between two pixels by the L1 norm: the steps along the
/// rows plus the steps along the columns.
pub open spec fn l1_distance(ax: int, ay: int, bx: int, by: int) -> int {
    (if ax <= bx {
        bx - ax
    } else {
        ax - bx
    }) + (if ay <= by {
        by - ay
    } else {
        ay - by
    })
}

/// Some pixel of the mask that is 0 lies within `radius` of `(x, y)`.
pub open spec fn near_background(
    pixels: Seq<u8>,
    width: int,
    height: int,
    x: int,
    y: int,
    radius: int,
) -> bool {
    exists|qx: int, qy: int|
        0 <= qx < width && 0 <= qy < height && pixels[pixel_index(width, qx, qy)] == 0
            && #[trigger] l1_distance(x, y, qx, qy) <= radius
}

/// Some pixel of the mask that is not 0 lies within `radius` of `(x, y)`.
pub open spec fn near_foreground(
    pixels: Seq<u8>,
    width: int,
    height: int,
    x: int,
    y: int,
    radius: int,
) -> bool {
    exists|qx: int, qy: int|
        0 <= qx < width && 0 <= qy < height && pixels[pixel_index(width, qx, qy)] != 0
            && #[trigger] l1_distance(x, y, qx, qy) <= radius
}

/// The morphology kernels hold distances at 255 and at the sum of the
/// dimensions of the mask; a radius that reaches this limit takes every
/// pixel for near, whatever the mask holds.
pub open spec fn radius_covers_all(width: int, height: int, radius: int) -> bool {
    radius >= 255 || radius >= width + height
}

/// The pixels of a mask after erosion with the L1 norm: 0 where a pixel
/// that is 0 lies within the radius (or the radius covers all), 255
/// elsewhere.
pub open spec fn eroded_pixels(pixels: Seq<u8>, width: u32, height: u32, radius: u8) -> Seq<u8> {
    Seq::new(
        pixels.len(),
        |i: int|
            if radius_covers_all(width as int, height as int, radius as int) || near_background(
                pixels,
                width as int,
                height as int,
                i % (width as int),
                i / (width as int),
                radius as int,
            ) {
                0u8
            } else {
                255u8
            },
    )
}

/// The pixels of a mask after dilation with the L1 norm: 255 where a pixel
/// that is not 0 lies within the radius (or the radius covers all), 0
/// elsewhere.
pub open spec fn dilated_pixels(pixels: Seq<u8>, width: u32, height: u32, radius: u8) -> Seq<
    u8,
> {
    Seq::new(
        pixels.len(),
        |i: int|
            if radius_covers_all(width as int, height as int, radius as int) || near_foreground(
                pixels,
                width as int,
                height as int,
                i % (width as int),
                i / (width as int),
                radius as int,
            ) {
                255u8
            } else {
                0u8
            },
    )
}

/// The component id of every pixel of a mask, as
/// `imageproc::region_labelling::connected_components` assigns them with
/// 4-connectivity and 0 as the background.
pub uninterp spec fn component_labels(pixels: Seq<u8>, width: u32, height: u32) -> Seq<u32>;

/// Calls `imageproc::morphology::erode_mut` with `Norm::L1` on a copy of the
/// mask. Taken on trust: the result has the size of the mask; a pixel of it
/// is 0 where its distance to the nearest pixel of the mask that is 0, held
/// at 255 and at the sum of the dimensions, is at most the radius, and 255
/// elsewhere. The sum of the dimensions has to fit in 32 bits, which the
/// outside function computes.
#[verifier::external_body]
pub(crate) fn erode(mask: &GrayImage, radius: u8) -> (r: GrayImage)
    requires
        mask.width() + mask.height() <= u32::MAX,
    ensures
        r.same_size(mask),
        r@ == eroded_pixels(mask@, mask.width(), mask.height(), radius),
{
    let mut image =
        ::image::GrayImage::from_raw(mask.width(), mask.height(), mask.pixels().clone()).unwrap();
    imageproc::morphology::erode_mut(&mut image, imageproc::distance_transform::Norm::L1, radius);
    Image::from_pixels(mask.width(), mask.height(), image.into_raw()).unwrap()
}

/// Calls `imageproc::morphology::dilate_mut` with `Norm::L1` on a copy of
/// the mask. Taken on trust: the result has the size of the mask; a pixel of
/// it is 255 where its distance to the nearest pixel of the mask that is not
/// 0, held at 255 and at the sum of the dimensions, is at most the radius,
/// and 0 elsewhere. The sum of the dimensions has to fit in 32 bits, which
/// the outside function computes.
#[verifier::external_body]
pub(crate) fn dilate(mask: &GrayImage, radius: u8) -> (r: GrayImage)
    requires
        mask.width() + mask.height() <= u32::MAX,
    ensures
        r.same_size(mask),
        r@ == dilated_pixels(mask@, mask.width(), mask.height(), radius),
{
    let mut image =
        ::image::GrayImage::from_raw(mask.width(), mask.height(), mask.pixels().clone()).unwrap();
    imageproc::morphology::dilate_mut(&mut image, imageproc::distance_transform::Norm::L1, radius);
    Image::from_pixels(mask.width(), mask.height(), image.into_raw()).unwrap()
}

/// A pixel at which the labelling starts a component of its own: it is not
/// 0 and differs from the pixel to its left and from the pixel above it, as
/// far as there are such.
pub open spec fn starts_component(mask: &GrayImage, x: int, y: int) -> bool {
    &&& mask.at(x, y) != 0
    &&& (x == 0 || mask.at(x - 1, y) != mask.at(x, y))
    &&& (y == 0 || mask.at(x, y - 1) != mask.at(x, y))
}

/// Some pixel of the mask is 0 or equals the pixel to its left or the pixel
/// above it.
pub open spec fn has_joined_pixel(mask: &GrayImage) -> bool {
    exists|x: int, y: int| mask.in_bounds(x, y) && !#[trigger] starts_component(mask, x, y)
}

/// A walk over pixels of the mask that all hold the value of the first, each
/// step going to a neighbour (left, right, above or below).
pub open spec fn same_value_path(
    pixels: Seq<u8>,
    width: int,
    height: int,
    path: Seq<(int, int)>,
) -> bool {
    &&& path.len() > 0
    &&& forall|k: int|
        0 <= k < path.len() ==> 0 <= (#[trigger] path[k]).0 < width && 0 <= path[k].1 < height
            && pixels[pixel_index(width, path[k].0, path[k].1)] == pixels[pixel_index(
            width,
            path[0].0,
            path[0].1,
        )]
    &&& forall|k: int| 0 <= k < path.len() - 1 ==> adjacent(#[trigger] path[k], path[k + 1])
}

/// Two pixels are joined when a walk over pixels of their value leads from
/// one to the other.
pub open spec fn joined(
    pixels: Seq<u8>,
    width: int,
    height: int,
    a: (int, int),
    b: (int, int),
) -> bool {
    exists|path: Seq<(int, int)>|
        #[trigger] same_value_path(pixels, width, height, path) && path[0] == a && path.last()
            == b
}

/// A label map gives two pixels that are not 0 the same id exactly when
/// they are joined.
pub open spec fn labels_follow_components(
    labels: Seq<u32>,
    pixels: Seq<u8>,
    width: int,
    height: int,
) -> bool {
    forall|a: (int, int), b: (int, int)|
        0 <= a.0 < width && 0 <= a.1 < height && 0 <= b.0 < width && 0 <= b.1 < height
            && pixels[pixel_index(width, a.0, a.1)] != 0 && pixels[pixel_index(width, b.0, b.1)]
            != 0 ==> (labels[pixel_index(width, a.0, a.1)] == labels[pixel_index(
            width,
            b.0,
            b.1,
        )] <==> #[trigger] joined(pixels, width, height, a, b))
}

/// The ids of a label map are handed out in the order of the scan, one
/// after the other from 1: an id above 1 comes only after the id before it.
pub open spec fn numbered_in_scan_order(labels: Seq<u32>) -> bool {
    forall|i: int|
        0 <= i < labels.len() && #[trigger] labels[i] > 1 ==> exists|j: int|
            0 <= j < i && #[trigger] labels[j] == labels[i] - 1
}

/// Calls `imageproc::region_labelling::connected_components` with
/// `Connectivity::Four` and background 0. Taken on trust: the result has the
/// size of the mask and depends on the mask alone; a pixel has the label 0
/// exactly when it is 0 in the mask; two pixels that are not 0 have the same
/// id exactly when a walk over neighbours of their value joins them; and
/// the ids are handed out in the order of the scan, from 1 on. The outside function refuses images of 2^32
/// pixels or more. It also counts one provisional component for every pixel
/// that starts one and asserts that there are fewer of them than pixels, so
/// a mask with pixels needs one pixel that starts none.
#[verifier::external_body]
pub(crate) fn connected_components(mask: &GrayImage) -> (labels: LabelImage)
    requires
        mask.width() * mask.height() < 0x1_0000_0000,
        mask.width() == 0 || mask.height() == 0 || has_joined_pixel(mask),
    ensures
        labels.same_size(mask),
        labels@ == component_labels(mask@, mask.width(), mask.height()),
        labels@.len() == mask@.len(),
        forall|i: int| 0 <= i < labels@.len() ==> (labels@[i] == 0 <==> mask@[i] == 0),
        labels_follow_components(
            labels@,
            mask@,
            mask.width() as int,
            mask.height() as int,
        ),
        numbered_in_scan_order(labels@),
{
    let image =
        ::image::GrayImage::from_raw(mask.width(), mask.height(), mask.pixels().clone()).unwrap();
    let labelled = imageproc::region_labelling::connected_components(
        &image,
        imageproc::region_labelling::Connectivity::Four,
        ::image::Luma([0u8]),
    );
    Image::from_pixels(mask.width(), mask.height(), labelled.into_raw()).unwrap()
}

/// Calls `imageproc::hough::detect_lines` and hands out the angle of each
/// detected line, in the order of detection. Taken on trust: every angle is
/// a whole number of degrees below 180. Nothing is claimed about which lines
/// are found. The outside function squares the dimensions in 32 bits and
/// adds the radius to a coordinate.
#[verifier::external_body]
pub(crate) fn detect_line_angles(
    edges: &GrayImage,
    vote_threshold: u32,
    suppression_radius: u32,
) -> (angles: Vec<u32>)
    requires
        edges.width() * edges.width() + edges.height() * edges.height() <= u32::MAX,
        suppression_radius <= 0x4000_0000,
    ensures
        forall|i: int| 0 <= i < angles@.len() ==> angles@[i] < 180,
{
    let image =
        ::image::GrayImage::from_raw(edges.width(), edges.height(), edges.pixels().clone()).unwrap();
    let options = imageproc::hough::LineDetectionOptions { vote_threshold, suppression_radius };
    imageproc::hough::detect_lines(&image, options).iter().map(|line| line.angle_in_degrees).collect()
}

/// The points of each border of the foreground of a mask, border by
/// border, as `imageproc::contours::find_contours` follows them.
pub uninterp spec fn border_points(pixels: Seq<u8>, width: u32, height: u32) -> Seq<Seq<Point>>;

/// Calls `imageproc::contours::find_contours` and hands out the points of
/// each border it finds, border by border in the order found. Taken on
/// trust: the result depends on the image alone, and every point lies
/// inside the image. The outside function counts in signed 32-bit numbers.
#[verifier::external_body]
pub(crate) fn find_contours(image: &GrayImage) -> (contours: Vec<Vec<Point>>)
    requires
        image.width() <= 0x8000,
        image.height() <= 0x8000,
    ensures
        contours@.len() == border_points(image@, image.width(), image.height()).len(),
        forall|i: int|
            0 <= i < contours@.len() ==> (#[trigger] contours@[i])@ == border_points(
                image@,
                image.width(),
                image.height(),
            )[i],
        forall|i: int, j: int|
            0 <= i < contours@.len() && 0 <= j < contours@[i]@.len() ==> (#[trigger] contours@[i]@[j]).x
                < image.width() && contours@[i]@[j].y < image.height(),
{
    let gray =
        ::image::GrayImage::from_raw(image.width(), image.height(), image.pixels().clone()).unwrap();
    imageproc::contours::find_contours::<u32>(&gray).into_iter().map(
        |contour| contour.points.into_iter().map(|p| Point { x: p.x, y: p.y }).collect(),
    ).collect()
}

/// Calls `imageproc::geometry::convex_hull` (a Graham scan). Taken on
/// trust: every point of the hull is one of the points given; the hull of
/// at least one point is not empty, and starts with the point from which the
/// scan starts, which is the one with the smallest y and, among those, the
/// smallest x; every other point is put on the stack of the scan once, after
/// what the scan takes off for it, so that the hull has no more points than
/// were given and at least two where at least two were given. The outside
/// function multiplies coordinate differences in
/// signed 32-bit numbers and orders the points by a comparison that is an
/// order only among distinct points.
#[verifier::external_body]
pub(crate) fn convex_hull(points: &Vec<Point>) -> (hull: Vec<Point>)
    requires
        points@.no_duplicates(),
        forall|i: int| 0 <= i < points@.len() ==> points@[i].x < 0x8000 && points@[i].y < 0x8000,
    ensures
        forall|j: int| 0 <= j < hull@.len() ==> points@.contains(#[trigger] hull@[j]),
        points@.len() > 0 ==> hull@.len() > 0,
        points@.len() >= 2 ==> hull@.len() >= 2,
        hull@.len() <= points@.len(),
        points@.len() > 0 ==> forall|k: int|
            0 <= k < points@.len() ==> hull@[0].y < (#[trigger] points@[k]).y || (hull@[0].y
                == points@[k].y && hull@[0].x <= points@[k].x),
{
    let given: Vec<imageproc::point::Point<u32>> =
        points.iter().map(|p| imageproc::point::Point::new(p.x, p.y)).collect();
    imageproc::geometry::convex_hull(given).into_iter().map(|p| Point { x: p.x, y: p.y }).collect()
}

/// Whether a sequence never descends.
pub open spec fn ascending(s: Seq<i32>) -> bool {
    forall|i: int, j: int| 0 <= i < j < s.len() ==> s[i] <= s[j]
}

/// Calls `itertools::Itertools::sorted`. Taken on trust: the result holds
/// the items of `values`, each as often as `values` does, in ascending
/// order.
#[verifier::external_body]
pub(crate) fn sorted(values: Vec<i32>) -> (r: Vec<i32>)
    ensures
        r@.to_multiset() == values@.to_multiset(),
        ascending(r@),
{
    itertools::Itertools::sorted(values.into_iter()).collect()
}

} // verus!
