//! Measuring a blob: its bounding box, the centre to rotate about, and the
//! angle that straightens it.

use std::collections::HashMap;
use vstd::prelude::*;
use vstd::relations::sorted_by;
use vstd::relations::total_ordering;
use vstd::seq_lib::lemma_sorted_unique;
use vstd::string::StringExecFns;
use crate::angle::Angle;
use crate::angle::DeskewResult;
use crate::angle::MAX_DESKEW_MICRODEGREES;
use crate::buffer::GrayImage;
use crate::buffer::Point;
use crate::buffer::Rgba;
use crate::buffer::RgbaImage;
use crate::geometry::rectangle_center;
use crate::geometry::Rect;
use crate::kernels::ascending;
use crate::kernels::border_points;
use crate::kernels::convex_hull;
use crate::kernels::detect_line_angles;
use crate::kernels::find_contours;
use crate::kernels::sorted;

verus! {

/// A pixel of a mask belongs to the foreground when its intensity is not 0.
pub open spec fn foreground(image: &GrayImage, x: int, y: int) -> bool {
    image.in_bounds(x, y) && image.at(x, y) != 0
}

pub open spec fn has_foreground(image: &GrayImage) -> bool {
    exists|x: int, y: int| foreground(image, x, y)
}

/// `r` is the smallest box that holds every foreground pixel: all of them
/// lie inside, and each of its four edges touches one.
pub open spec fn is_bounding_box(image: &GrayImage, r: Rect) -> bool {
    &&& forall|x: int, y: int| #[trigger]
        foreground(image, x, y) ==> r.left <= x <= r.right && r.top <= y <= r.bottom
    &&& exists|y: int| foreground(image, r.left as int, y)
    &&& exists|y: int| foreground(image, r.right as int, y)
    &&& exists|x: int| foreground(image, x, r.top as int)
    &&& exists|x: int| foreground(image, x, r.bottom as int)
}

spec fn scanned(qx: int, qy: int, x: int, y: int) -> bool {
    qy < y || (qy == y && qx < x)
}

/// Computes the bounding box of the foreground of a mask. A mask without
/// foreground has the degenerate box [`Rect::empty`].
pub fn compute_bounding_box(image: &GrayImage) -> (r: Rect)
    ensures
        has_foreground(image) ==> is_bounding_box(image, r),
        !has_foreground(image) ==> r == Rect::empty(),
{
    let width = image.width();
    let height = image.height();
    let mut found = false;
    let mut left: u32 = u32::MAX;
    let mut top: u32 = u32::MAX;
    let mut right: u32 = 0;
    let mut bottom: u32 = 0;
    let ghost mut at_left: int = 0;
    let ghost mut at_right: int = 0;
    let ghost mut at_top: int = 0;
    let ghost mut at_bottom: int = 0;
    let mut y: u32 = 0;
    while y < height
        invariant
            y <= height,
            image.width() == width,
            image.height() == height,
            !found ==> left == u32::MAX && top == u32::MAX && right == 0 && bottom == 0,
            !found ==> forall|qx: int, qy: int| #[trigger]
                foreground(image, qx, qy) ==> !scanned(qx, qy, 0, y as int),
            found ==> forall|qx: int, qy: int| #[trigger]
                foreground(image, qx, qy) && scanned(qx, qy, 0, y as int) ==> left <= qx <= right
                    && top <= qy <= bottom,
            found ==> foreground(image, left as int, at_left) && foreground(
                image,
                right as int,
                at_right,
            ) && foreground(image, at_top, top as int) && foreground(image, at_bottom, bottom as int),
        decreases height - y,
    {
        let mut x: u32 = 0;
        while x < width
            invariant
                x <= width,
                y < height,
                image.width() == width,
                image.height() == height,
                !found ==> left == u32::MAX && top == u32::MAX && right == 0 && bottom == 0,
                !found ==> forall|qx: int, qy: int| #[trigger]
                    foreground(image, qx, qy) ==> !scanned(qx, qy, x as int, y as int),
                found ==> forall|qx: int, qy: int| #[trigger]
                    foreground(image, qx, qy) && scanned(qx, qy, x as int, y as int) ==> left <= qx
                        <= right && top <= qy <= bottom,
                found ==> foreground(image, left as int, at_left) && foreground(
                    image,
                    right as int,
                    at_right,
                ) && foreground(image, at_top, top as int) && foreground(
                    image,
                    at_bottom,
                    bottom as int,
                ),
            decreases width - x,
        {
            if image.get_pixel(x, y) != 0 {
                if !found || x < left {
                    left = x;
                    proof {
                        at_left = y as int;
                    }
                }
                if !found || x > right {
                    right = x;
                    proof {
                        at_right = y as int;
                    }
                }
                if !found || y < top {
                    top = y;
                    proof {
                        at_top = x as int;
                    }
                }
                if !found || y > bottom {
                    bottom = y;
                    proof {
                        at_bottom = x as int;
                    }
                }
                found = true;
            }
            x += 1;
        }
        y += 1;
    }
    let r = Rect { left, top, right, bottom };
    proof {
        if has_foreground(image) {
            let (fx, fy) = choose|x: int, y: int| foreground(image, x, y);
            assert(scanned(fx, fy, 0, height as int));
            assert forall|x: int, y: int| #[trigger] foreground(image, x, y) implies r.left <= x
                <= r.right && r.top <= y <= r.bottom by {
                assert(scanned(x, y, 0, height as int));
            }
            assert(foreground(image, r.left as int, at_left));
            assert(foreground(image, r.right as int, at_right));
            assert(foreground(image, at_top, r.top as int));
            assert(foreground(image, at_bottom, r.bottom as int));
        }
    }
    r
}

/// The bounding box of a mask without foreground is degenerate.
pub proof fn lemma_bounding_box_of_nothing(image: &GrayImage, r: Rect)
    requires
        forall|x: int, y: int| image.in_bounds(x, y) ==> image.at(x, y) == 0,
        has_foreground(image) ==> is_bounding_box(image, r),
        !has_foreground(image) ==> r == Rect::empty(),
    ensures
        r.is_degenerate(),
        r.left > r.right,
{
}

/// The bounding box of a single foreground pixel starts and ends at that
/// pixel: it has no extent in either direction.
pub proof fn lemma_bounding_box_of_one_pixel(image: &GrayImage, r: Rect, x: int, y: int)
    requires
        foreground(image, x, y),
        forall|qx: int, qy: int| #[trigger] foreground(image, qx, qy) ==> qx == x && qy == y,
        has_foreground(image) ==> is_bounding_box(image, r),
        !has_foreground(image) ==> r == Rect::empty(),
    ensures
        r.left == x && r.right == x && r.top == y && r.bottom == y,
        r.width() == 0 && r.height() == 0,
        !r.is_degenerate(),
{
}

/// Finds the centre of a rectangle.
pub fn compute_center_from_rectangle(rect: &Rect) -> (center: Point)
    ensures
        center == rectangle_center(*rect),
{
    Point { x: rect.left + rect.width() / 2, y: rect.top + rect.height() / 2 }
}

/// The radius, in accumulator cells, within which only the line with the
/// most votes is kept.
pub const LINE_SUPPRESSION_RADIUS: u32 = 50;

/// Brings an angle over the ceiling into the common orientation by taking a
/// quarter turn off it.
pub open spec fn fold_angle(degrees: int, ceiling: int) -> int {
    if degrees > ceiling {
        degrees - 90
    } else {
        degrees
    }
}

/// An angle folded, and folded once more if it is still over the ceiling.
pub open spec fn normalize_angle(degrees: int, ceiling: int) -> int {
    fold_angle(fold_angle(degrees, ceiling), ceiling)
}

/// The first `max_lines` angles, each normalized.
pub open spec fn normalized_angles(angles: Seq<u32>, max_lines: int, ceiling: int) -> Seq<i32> {
    Seq::new(
        if angles.len() <= max_lines {
            angles.len()
        } else {
            max_lines as nat
        },
        |i: int| normalize_angle(angles[i] as int, ceiling) as i32,
    )
}

/// The items of a sequence in ascending order.
pub open spec fn in_order(s: Seq<i32>) -> Seq<i32> {
    s.sort_by(|a: i32, b: i32| a <= b)
}

/// Twice the median of a sequence in ascending order: twice the middle item
/// of an odd count, the sum of the two middle items of an even count.
pub open spec fn median_twice(ordered: Seq<i32>) -> int {
    let mid = ordered.len() as int / 2;
    if ordered.len() % 2 == 0 {
        ordered[mid - 1] + ordered[mid]
    } else {
        2 * ordered[mid]
    }
}

/// The deskew angle, in millionths of a degree, that a list of line angles
/// gives: no rotation for no lines, else the median of the normalized
/// angles with its sign inverted.
pub open spec fn deskew_microdegrees(angles: Seq<u32>, max_lines: int, ceiling: int) -> int {
    let normalized = normalized_angles(angles, max_lines, ceiling);
    if normalized.len() == 0 {
        0
    } else {
        -500_000 * median_twice(in_order(normalized))
    }
}

/// Line angles as the line detection gives them: whole degrees below 180.
pub open spec fn are_line_angles(angles: Seq<u32>) -> bool {
    forall|i: int| 0 <= i < angles.len() ==> angles[i] < 180
}

/// The order on the integers is total.
proof fn lemma_int_order_total()
    ensures
        total_ordering(|a: i32, b: i32| a <= b),
{
    let leq = |a: i32, b: i32| a <= b;
    assert(vstd::relations::reflexive(leq));
    assert(vstd::relations::antisymmetric(leq));
    assert(vstd::relations::transitive(leq));
    assert(vstd::relations::strongly_connected(leq));
}

/// There is one way only to put a sequence in ascending order.
proof fn lemma_ascending_is_in_order(values: Seq<i32>, ordered: Seq<i32>)
    requires
        ordered.to_multiset() == values.to_multiset(),
        ascending(ordered),
    ensures
        ordered == in_order(values),
{
    let leq = |a: i32, b: i32| a <= b;
    lemma_int_order_total();
    values.lemma_sort_by_ensures(leq);
    assert(sorted_by(ordered, leq));
    lemma_sorted_unique(ordered, in_order(values), leq);
}

/// Normalizes one line angle: an angle over `max_blob_rotation` loses a
/// quarter turn, and another if it is still over.
pub fn normalize_line_angle(degrees: u32, max_blob_rotation: i32) -> (r: i32)
    requires
        degrees < 180,
    ensures
        r == normalize_angle(degrees as int, max_blob_rotation as int),
        -180 <= r < 180,
{
    let a: i32 = degrees as i32;
    let once: i32 = if a > max_blob_rotation {
        a - 90
    } else {
        a
    };
    if once > max_blob_rotation {
        once - 90
    } else {
        once
    }
}

/// Computes the deskew angle from the angles of the detected lines: the
/// first `max_lines` of them are normalized against `max_blob_rotation`
/// (in degrees) and put in order, and the median is inverted, so that a
/// rotation by the result straightens the blob. No lines give no rotation.
///
/// The result is the estimate as it comes out, which may lie more than ten
/// degrees from zero (one line at 50 degrees gives 40 degrees). The limit
/// of ten degrees is applied where the deskew result is made, by
/// [`DeskewResult::new`].
pub fn deskew_angle_from_lines(angles: &Vec<u32>, max_lines: usize, max_blob_rotation: i32) -> (r:
    Angle)
    requires
        are_line_angles(angles@),
    ensures
        r.microdegrees == deskew_microdegrees(
            angles@,
            max_lines as int,
            max_blob_rotation as int,
        ),
{
    let count = if angles.len() <= max_lines {
        angles.len()
    } else {
        max_lines
    };
    let ghost expected = normalized_angles(angles@, max_lines as int, max_blob_rotation as int);
    let mut normalized: Vec<i32> = Vec::with_capacity(count);
    let mut i: usize = 0;
    while i < count
        invariant
            i <= count,
            count <= angles.len(),
            are_line_angles(angles@),
            normalized@.len() == i,
            expected.len() == count,
            expected == normalized_angles(angles@, max_lines as int, max_blob_rotation as int),
            forall|k: int| 0 <= k < i ==> normalized@[k] == expected[k],
        decreases count - i,
    {
        normalized.push(normalize_line_angle(angles[i], max_blob_rotation));
        i += 1;
    }
    if count == 0 {
        return Angle { microdegrees: 0 };
    }
    assert(normalized@ =~= expected);
    let ordered = sorted(normalized);
    proof {
        lemma_ascending_is_in_order(expected, ordered@);
        vstd::seq_lib::to_multiset_len(ordered@);
        vstd::seq_lib::to_multiset_len(expected);
        assert forall|k: int| 0 <= k < ordered@.len() implies -180 <= #[trigger] ordered@[k]
            < 180 by {
            vstd::seq_lib::to_multiset_contains(ordered@, ordered@[k]);
            vstd::seq_lib::to_multiset_contains(expected, ordered@[k]);
            assert(ordered@.contains(ordered@[k]));
            let at = choose|at: int| 0 <= at < expected.len() && expected[at] == ordered@[k];
            assert(expected[at] == normalized@[at]);
        }
    }
    let mid = ordered.len() / 2;
    assert(-180 <= ordered@[mid as int] < 180);
    assert(ordered.len() % 2 == 0 ==> -180 <= ordered@[mid - 1] < 180);
    let twice: i32 = if ordered.len() % 2 == 0 {
        ordered[mid - 1] + ordered[mid]
    } else {
        2 * ordered[mid]
    };
    assert(-360 <= twice < 360);
    Angle { microdegrees: 0 - twice * 500_000 }
}

/// Computes the deskew angle for a rectangular blob from its edge map:
/// detects lines with at least `min_pixels_touching_line` votes and computes
/// the angle from their angles as [`deskew_angle_from_lines`] does. Which
/// lines are detected is left open here, so the result is the angle of
/// some list of line angles. Like there, the result is the estimate as it
/// comes out; the limit of ten degrees is applied by [`DeskewResult::new`].
pub fn compute_deskew_angle_for_rectangle(
    edges: &GrayImage,
    min_pixels_touching_line: u32,
    max_lines: usize,
    max_blob_rotation: i32,
) -> (r: Angle)
    requires
        edges.width() * edges.width() + edges.height() * edges.height() <= u32::MAX,
    ensures
        exists|angles: Seq<u32>|
            are_line_angles(angles) && r.microdegrees == #[trigger] deskew_microdegrees(
                angles,
                max_lines as int,
                max_blob_rotation as int,
            ),
{
    let angles = detect_line_angles(edges, min_pixels_touching_line, LINE_SUPPRESSION_RADIUS);
    deskew_angle_from_lines(&angles, max_lines, max_blob_rotation)
}

/// The four extreme points of a list of points.
#[derive(Clone, Copy, Debug, PartialEq, Eq, Structural)]
pub struct Extremes {
    pub leftmost: Point,
    pub rightmost: Point,
    pub topmost: Point,
    pub bottommost: Point,
}

/// `p` is the point with the smallest x, and among those the smallest y.
pub open spec fn is_leftmost(points: Seq<Point>, p: Point) -> bool {
    &&& points.contains(p)
    &&& forall|k: int|
        0 <= k < points.len() ==> p.x < (#[trigger] points[k]).x || (p.x == points[k].x && p.y
            <= points[k].y)
}

/// `p` is the point with the smallest y, and among those the smallest x.
pub open spec fn is_topmost(points: Seq<Point>, p: Point) -> bool {
    &&& points.contains(p)
    &&& forall|k: int|
        0 <= k < points.len() ==> p.y < (#[trigger] points[k]).y || (p.y == points[k].y && p.x
            <= points[k].x)
}

/// `p` is the point with the greatest y, and among those the smallest x.
pub open spec fn is_bottommost(points: Seq<Point>, p: Point) -> bool {
    &&& points.contains(p)
    &&& forall|k: int|
        0 <= k < points.len() ==> p.y > (#[trigger] points[k]).y || (p.y == points[k].y && p.x
            <= points[k].x)
}

/// `p` is the first point of the list with the greatest x.
pub open spec fn is_rightmost(points: Seq<Point>, p: Point) -> bool {
    exists|at: int|
        0 <= at < points.len() && #[trigger] points[at] == p && (forall|k: int|
            0 <= k < points.len() ==> (#[trigger] points[k]).x <= p.x) && (forall|k: int|
            0 <= k < at ==> (#[trigger] points[k]).x < p.x)
}

pub open spec fn are_extremes(points: Seq<Point>, e: Extremes) -> bool {
    &&& is_leftmost(points, e.leftmost)
    &&& is_rightmost(points, e.rightmost)
    &&& is_topmost(points, e.topmost)
    &&& is_bottommost(points, e.bottommost)
}

/// Finds the leftmost, rightmost, topmost and bottommost of a list of
/// points. Ties are broken towards the top for the leftmost point and
/// towards the left for the topmost and the bottommost.
pub fn find_extremal_points(points: &Vec<Point>) -> (e: Extremes)
    requires
        points@.len() > 0,
    ensures
        are_extremes(points@, e),
{
    let mut leftmost = points[0];
    let mut rightmost = points[0];
    let mut topmost = points[0];
    let mut bottommost = points[0];
    let ghost mut right_at: int = 0;
    let mut i: usize = 1;
    proof {
        assert(points@.take(1).contains(points@[0])) by {
            assert(points@.take(1)[0] == points@[0]);
        }
        assert(is_rightmost(points@.take(1), rightmost)) by {
            assert(points@.take(1)[0] == rightmost);
        }
    }
    while i < points.len()
        invariant
            1 <= i <= points.len(),
            0 <= right_at < i,
            points@[right_at] == rightmost,
            forall|k: int| 0 <= k < i ==> (#[trigger] points@[k]).x <= rightmost.x,
            forall|k: int| 0 <= k < right_at ==> (#[trigger] points@[k]).x < rightmost.x,
            is_leftmost(points@.take(i as int), leftmost),
            is_topmost(points@.take(i as int), topmost),
            is_bottommost(points@.take(i as int), bottommost),
        decreases points.len() - i,
    {
        let p = points[i];
        let ghost before = points@.take(i as int);
        let ghost after = points@.take(i + 1);
        proof {
            assert(after[i as int] == p);
            assert forall|q: Point| before.contains(q) implies after.contains(q) by {
                let k = choose|k: int| 0 <= k < before.len() && before[k] == q;
                assert(after[k] == q);
            }
            assert forall|k: int| 0 <= k < after.len() implies k == i || #[trigger] after[k]
                == before[k] by {}
        }
        if p.x < leftmost.x || (p.x == leftmost.x && p.y < leftmost.y) {
            leftmost = p;
        }
        if p.x > rightmost.x {
            rightmost = p;
            proof {
                right_at = i as int;
            }
        }
        if p.y < topmost.y || (p.y == topmost.y && p.x < topmost.x) {
            topmost = p;
        }
        if p.y > bottommost.y || (p.y == bottommost.y && p.x < bottommost.x) {
            bottommost = p;
        }
        proof {
            assert forall|k: int| 0 <= k < after.len() implies leftmost.x < (#[trigger] after[k]).x
                || (leftmost.x == after[k].x && leftmost.y <= after[k].y) by {
                if k < i {
                    assert(after[k] == before[k]);
                }
            }
            assert forall|k: int| 0 <= k < after.len() implies topmost.y < (#[trigger] after[k]).y
                || (topmost.y == after[k].y && topmost.x <= after[k].x) by {
                if k < i {
                    assert(after[k] == before[k]);
                }
            }
            assert forall|k: int| 0 <= k < after.len() implies bottommost.y > (
            #[trigger] after[k]).y || (bottommost.y == after[k].y && bottommost.x <= after[k].x) by {
                if k < i {
                    assert(after[k] == before[k]);
                }
            }
        }
        i += 1;
    }
    proof {
        assert(points@.take(points@.len() as int) =~= points@);
    }
    Extremes { leftmost, rightmost, topmost, bottommost }
}

/// Which of the two triangles at the leftmost corner the skew is measured
/// in, and with it the sign of the angle.
#[derive(Clone, Copy, Debug, PartialEq, Eq, Structural)]
pub enum SkewDirection {
    /// The triangle over the leftmost and the topmost point: the angle
    /// counts negative (direction factor -1).
    Right,
    /// The triangle over the leftmost and the bottommost point: the angle
    /// counts positive (direction factor +1).
    Left,
}

/// The right-angled triangle between the leftmost corner of a blob and the
/// corner above or below it, by the lengths of its legs. The skew is the
/// smaller of the two acute angles of this triangle, with the sign of the
/// direction.
#[derive(Clone, Copy, Debug, PartialEq, Eq, Structural)]
pub struct SkewTriangle {
    pub horizontal: u32,
    pub vertical: u32,
    pub direction: SkewDirection,
}

/// The triangle that the extreme points of a blob give: of the triangle
/// over the leftmost and the topmost point and the triangle over the
/// leftmost and the bottommost point, the one whose vertical leg is the
/// shorter; the bottom one where the two are equal.
pub open spec fn skew_triangle_of(e: Extremes) -> SkewTriangle {
    let top_vertical = e.leftmost.y - e.topmost.y;
    let bottom_vertical = e.bottommost.y - e.leftmost.y;
    if top_vertical < bottom_vertical {
        SkewTriangle {
            horizontal: (e.topmost.x - e.leftmost.x) as u32,
            vertical: top_vertical as u32,
            direction: SkewDirection::Right,
        }
    } else {
        SkewTriangle {
            horizontal: (e.bottommost.x - e.leftmost.x) as u32,
            vertical: bottom_vertical as u32,
            direction: SkewDirection::Left,
        }
    }
}

/// The box that the extreme points span.
pub open spec fn extremes_box(e: Extremes) -> Rect {
    Rect { left: e.leftmost.x, top: e.topmost.y, right: e.rightmost.x, bottom: e.bottommost.y }
}

/// What the outline of a blob says about its skew: the triangle to measure
/// the angle in, if there is one, and the point to rotate about.
#[derive(Clone, Copy, Debug, PartialEq, Eq, Structural)]
pub struct SkewEstimate {
    pub triangle: Option<SkewTriangle>,
    pub center: Point,
}

/// The estimate for a hull of fewer than two points: nothing to measure, and
/// the centre of the whole image to rotate about.
pub open spec fn no_skew(width: u32, height: u32) -> SkewEstimate {
    SkewEstimate { triangle: None, center: Point { x: width / 2, y: height / 2 } }
}

/// The angle of a skew estimate once the angle of its triangle has been
/// measured: the measured angle with the sign of the direction, or no
/// rotation where there is no triangle or the signed angle lies more than
/// ten degrees from zero.
pub open spec fn deskew_angle_of(estimate: SkewEstimate, measured: Angle) -> Angle {
    match estimate.triangle {
        None => Angle { microdegrees: 0 },
        Some(triangle) => {
            let signed = match triangle.direction {
                SkewDirection::Right => -(measured.microdegrees as int),
                SkewDirection::Left => measured.microdegrees as int,
            };
            if -MAX_DESKEW_MICRODEGREES <= signed <= MAX_DESKEW_MICRODEGREES {
                Angle { microdegrees: signed as i32 }
            } else {
                Angle { microdegrees: 0 }
            }
        },
    }
}

impl SkewEstimate {
    /// Makes the deskew result of the estimate from the measured angle of
    /// its triangle (the smaller of its two acute angles): applies the sign
    /// of the direction, and replaces an angle of more than ten degrees,
    /// either way, with no rotation. Without a triangle there is no
    /// rotation.
    pub fn deskew(&self, measured: Angle) -> (r: DeskewResult)
        ensures
            r.angle() == deskew_angle_of(*self, measured),
            r.center() == self.center,
            -MAX_DESKEW_MICRODEGREES <= r.angle().microdegrees <= MAX_DESKEW_MICRODEGREES,
    {
        let signed: i64 = match self.triangle {
            None => 0,
            Some(triangle) => match triangle.direction {
                SkewDirection::Right => 0 - (measured.microdegrees as i64),
                SkewDirection::Left => measured.microdegrees as i64,
            },
        };
        let kept: i32 = if -(MAX_DESKEW_MICRODEGREES as i64) <= signed && signed
            <= MAX_DESKEW_MICRODEGREES as i64 {
            signed as i32
        } else {
            0
        };
        DeskewResult::new(Angle { microdegrees: kept }, self.center)
    }
}

/// Estimates the skew of a blob from the corner points of its convex hull.
/// Fewer than two points give no triangle and the centre of the image.
/// Otherwise the triangle is that of the extreme points, and the centre is
/// that of the box they span.
pub fn skew_from_hull(hull: &Vec<Point>, width: u32, height: u32) -> (r: SkewEstimate)
    ensures
        is_skew_of_hull(r, hull@, width, height),
{
    if hull.len() < 2 {
        return SkewEstimate { triangle: None, center: Point { x: width / 2, y: height / 2 } };
    }
    let e = find_extremal_points(hull);
    proof {
        let at = choose|at: int|
            0 <= at < hull@.len() && #[trigger] hull@[at] == e.rightmost && (forall|k: int|
                0 <= k < hull@.len() ==> (#[trigger] hull@[k]).x <= e.rightmost.x) && (forall|k: int|
                0 <= k < at ==> (#[trigger] hull@[k]).x < e.rightmost.x);
        let l = choose|k: int| 0 <= k < hull@.len() && hull@[k] == e.leftmost;
        let t = choose|k: int| 0 <= k < hull@.len() && hull@[k] == e.topmost;
        let b = choose|k: int| 0 <= k < hull@.len() && hull@[k] == e.bottommost;
        assert(hull@[l].x <= e.rightmost.x);
        assert(e.topmost.y <= hull@[l].y && e.topmost.y <= hull@[b].y);
        assert(e.bottommost.y >= hull@[l].y);
        assert(e.leftmost.x <= hull@[t].x && e.leftmost.x <= hull@[b].x);
    }
    let top_vertical = e.leftmost.y - e.topmost.y;
    let bottom_vertical = e.bottommost.y - e.leftmost.y;
    let triangle = if top_vertical < bottom_vertical {
        SkewTriangle {
            horizontal: e.topmost.x - e.leftmost.x,
            vertical: top_vertical,
            direction: SkewDirection::Right,
        }
    } else {
        SkewTriangle {
            horizontal: e.bottommost.x - e.leftmost.x,
            vertical: bottom_vertical,
            direction: SkewDirection::Left,
        }
    };
    let spanned = Rect {
        left: e.leftmost.x,
        top: e.topmost.y,
        right: e.rightmost.x,
        bottom: e.bottommost.y,
    };
    SkewEstimate { triangle: Some(triangle), center: compute_center_from_rectangle(&spanned) }
}

/// A list of points without its repetitions: each point stays where it
/// first occurs.
pub open spec fn without_repetition(points: Seq<Point>) -> Seq<Point>
    decreases points.len(),
{
    if points.len() == 0 {
        Seq::empty()
    } else {
        let before = without_repetition(points.drop_last());
        if before.contains(points.last()) {
            before
        } else {
            before.push(points.last())
        }
    }
}

/// Removes the repetitions from a list of points. The result holds the same
/// points, each once.
pub fn distinct_points(points: &Vec<Point>) -> (r: Vec<Point>)
    ensures
        r@ == without_repetition(points@),
        r@.no_duplicates(),
        forall|p: Point| r@.contains(p) <==> points@.contains(p),
{
    let mut out: Vec<Point> = Vec::new();
    let mut i: usize = 0;
    while i < points.len()
        invariant
            i <= points.len(),
            out@ == without_repetition(points@.take(i as int)),
            out@.no_duplicates(),
            forall|k: int| 0 <= k < out@.len() ==> points@.contains(#[trigger] out@[k]),
            forall|k: int| 0 <= k < i ==> out@.contains(#[trigger] points@[k]),
        decreases points.len() - i,
    {
        let p = points[i];
        let mut known = false;
        let mut j: usize = 0;
        while j < out.len()
            invariant
                j <= out.len(),
                known <==> exists|k: int| 0 <= k < j && out@[k] == p,
            decreases out.len() - j,
        {
            if out[j].x == p.x && out[j].y == p.y {
                known = true;
            }
            j += 1;
        }
        let ghost before = out@;
        proof {
            assert(points@.take(i + 1).drop_last() =~= points@.take(i as int));
            assert(points@.take(i + 1).last() == p);
        }
        if !known {
            out.push(p);
            proof {
                assert(out@[out@.len() - 1] == p);
                assert forall|k: int| 0 <= k < i implies out@.contains(#[trigger] points@[k]) by {
                    let at = choose|at: int| 0 <= at < before.len() && before[at] == points@[k];
                    assert(out@[at] == points@[k]);
                }
            }
        }
        i += 1;
    }
    proof {
        assert(points@.take(points@.len() as int) =~= points@);
        assert forall|p: Point| points@.contains(p) implies out@.contains(p) by {
            let k = choose|k: int| 0 <= k < points@.len() && points@[k] == p;
            assert(out@.contains(points@[k]));
        }
    }
    out
}

/// The points of the last border of a list of borders; none for no
/// borders.
pub open spec fn last_border(borders: Seq<Seq<Point>>) -> Seq<Point> {
    if borders.len() == 0 {
        Seq::empty()
    } else {
        borders.last()
    }
}

/// The points of the border that the contour search finds last, or no
/// points when it finds none.
pub fn find_contour_points(image: &GrayImage) -> (points: Vec<Point>)
    requires
        image.width() <= 0x8000,
        image.height() <= 0x8000,
    ensures
        points@ == last_border(border_points(image@, image.width(), image.height())),
        forall|k: int|
            0 <= k < points@.len() ==> (#[trigger] points@[k]).x < image.width() && points@[k].y
                < image.height(),
{
    let mut contours = find_contours(image);
    match contours.pop() {
        Some(points) => points,
        None => Vec::new(),
    }
}

/// The corner points of the convex hull of the outline of a blob: the hull
/// of the points, each taken once, of the border that the contour search
/// finds last. Every point of the hull is a point of that border, and so
/// lies inside the image. There is a hull exactly when the border has
/// points, and it starts with the topmost point of the border (the leftmost
/// of several). The hull has no more points than the border has different
/// ones, and at least two where the border has two. Which further points of
/// the border are corners of the hull is left open here.
pub fn find_hull_points(image: &GrayImage) -> (hull: Vec<Point>)
    requires
        image.width() <= 0x8000,
        image.height() <= 0x8000,
    ensures
        hull@.len() > 0 <==> last_border(
            border_points(image@, image.width(), image.height()),
        ).len() > 0,
        forall|k: int|
            0 <= k < hull@.len() ==> last_border(
                border_points(image@, image.width(), image.height()),
            ).contains(#[trigger] hull@[k]),
        hull@.len() > 0 ==> is_topmost(
            last_border(border_points(image@, image.width(), image.height())),
            hull@[0],
        ),
        hull@.len() <= without_repetition(
            last_border(border_points(image@, image.width(), image.height())),
        ).len(),
        without_repetition(
            last_border(border_points(image@, image.width(), image.height())),
        ).len() >= 2 ==> hull@.len() >= 2,
        forall|k: int|
            0 <= k < hull@.len() ==> (#[trigger] hull@[k]).x < image.width() && hull@[k].y
                < image.height(),
{
    let outline = find_contour_points(image);
    let corners = distinct_points(&outline);
    proof {
        assert forall|i: int| 0 <= i < corners@.len() implies corners@[i].x < image.width()
            && corners@[i].y < image.height() by {
            assert(outline@.contains(corners@[i]));
        }
        if outline@.len() > 0 {
            assert(outline@.contains(outline@[0]));
            assert(corners@.contains(outline@[0]));
        }
        if corners@.len() > 0 {
            assert(corners@.contains(corners@[0]));
            assert(outline@.contains(corners@[0]));
        }
    }
    let hull = convex_hull(&corners);
    proof {
        assert forall|k: int| 0 <= k < hull@.len() implies outline@.contains(
            #[trigger] hull@[k],
        ) by {
            assert(corners@.contains(hull@[k]));
        }
        assert forall|k: int| 0 <= k < hull@.len() implies (#[trigger] hull@[k]).x < image.width()
            && hull@[k].y < image.height() by {
            assert(outline@.contains(hull@[k]));
        }
        if hull@.len() > 0 {
            assert(corners@.contains(hull@[0]));
            assert(corners@.len() > 0);
            assert forall|k: int| 0 <= k < outline@.len() implies hull@[0].y < (
            #[trigger] outline@[k]).y || (hull@[0].y == outline@[k].y && hull@[0].x
                <= outline@[k].x) by {
                assert(outline@.contains(outline@[k]));
                assert(corners@.contains(outline@[k]));
                let at = choose|at: int| 0 <= at < corners@.len() && corners@[at] == outline@[k];
                assert(hull@[0].y < corners@[at].y || (hull@[0].y == corners@[at].y && hull@[0].x
                    <= corners@[at].x));
            }
        }
    }
    hull
}

/// `hull` can be the hull of the points of a border: its points are points
/// of the border, it starts with the topmost of them, and it has at least
/// two points where the border has two different ones and none where the
/// border has none.
pub open spec fn is_hull_of(hull: Seq<Point>, border: Seq<Point>) -> bool {
    &&& forall|k: int| 0 <= k < hull.len() ==> border.contains(#[trigger] hull[k])
    &&& hull.len() > 0 <==> border.len() > 0
    &&& hull.len() > 0 ==> is_topmost(border, hull[0])
    &&& hull.len() <= without_repetition(border).len()
    &&& without_repetition(border).len() >= 2 ==> hull.len() >= 2
}

/// `r` is the skew estimate that a hull gives in an image of the given
/// size; see [`skew_from_hull`].
pub open spec fn is_skew_of_hull(r: SkewEstimate, hull: Seq<Point>, width: u32, height: u32) -> bool {
    &&& hull.len() < 2 ==> r == no_skew(width, height)
    &&& hull.len() >= 2 ==> exists|e: Extremes| #[trigger]
        are_extremes(hull, e) && r == (SkewEstimate {
            triangle: Some(skew_triangle_of(e)),
            center: rectangle_center(extremes_box(e)),
        })
}

/// Estimates the skew of the single blob of a mask and the centre to rotate
/// about: the estimate that [`skew_from_hull`] makes of the convex hull of
/// the border that the contour search finds last. Of the hull this much is
/// known: see [`is_hull_of`]. A border of fewer than two different points
/// gives no triangle and the centre of the image. The result holds the
/// triangle to measure the angle in; [`SkewEstimate::deskew`] makes the
/// deskew result of the measured angle.
pub fn compute_skew_angle_and_rotation_center(image: &GrayImage) -> (r: SkewEstimate)
    requires
        image.width() <= 0x8000,
        image.height() <= 0x8000,
    ensures
        exists|hull: Seq<Point>| #[trigger]
            is_hull_of(
                hull,
                last_border(border_points(image@, image.width(), image.height())),
            ) && is_skew_of_hull(r, hull, image.width(), image.height()),
        without_repetition(
            last_border(border_points(image@, image.width(), image.height())),
        ).len() < 2 ==> r == no_skew(image.width(), image.height()),
        without_repetition(
            last_border(border_points(image@, image.width(), image.height())),
        ).len() >= 2 ==> r.triangle is Some,
{
    let hull = find_hull_points(image);
    let r = skew_from_hull(&hull, image.width(), image.height());
    proof {
        let border = last_border(border_points(image@, image.width(), image.height()));
        assert(is_hull_of(hull@, border));
        assert(is_skew_of_hull(r, hull@, image.width(), image.height()));
    }
    r
}

/// How often a colour occurs among the pixels.
pub open spec fn occurrences(pixels: Seq<Rgba>, color: Rgba) -> nat {
    pixels.to_multiset().count(color)
}

/// A colour as one number, channel by channel.
pub open spec fn color_key(color: Rgba) -> u32 {
    (color.r + 0x100 * color.g + 0x1_0000 * color.b + 0x100_0000 * color.a) as u32
}

/// Different colours have different keys.
proof fn lemma_color_key_distinct(a: Rgba, b: Rgba)
    requires
        color_key(a) == color_key(b),
    ensures
        a == b,
{
    let dr = a.r - b.r;
    let dg = a.g - b.g;
    let db = a.b - b.b;
    let da = a.a - b.a;
    assert(dr + 0x100 * dg + 0x1_0000 * db + 0x100_0000 * da == 0);
    assert(-0xFF_FFFF <= dr + 0x100 * dg + 0x1_0000 * db <= 0xFF_FFFF);
    assert(da == 0);
    assert(-0xFFFF <= dr + 0x100 * dg <= 0xFFFF);
    assert(db == 0);
    assert(dg == 0);
}

fn key_of(color: Rgba) -> (key: u32)
    ensures
        key == color_key(color),
{
    color.r as u32 + 0x100 * (color.g as u32) + 0x1_0000 * (color.b as u32) + 0x100_0000 * (
    color.a as u32)
}

/// Finds a colour that occurs most often in the image: no other colour
/// occurs more often. Which of several such colours comes out is left open.
/// An image without pixels has none.
pub fn find_dominant_color(image: &RgbaImage) -> (r: Option<Rgba>)
    ensures
        r is None <==> image@.len() == 0,
        r matches Some(color) ==> occurrences(image@, color) > 0 && forall|other: Rgba|
            occurrences(image@, other) <= occurrences(image@, color),
{
    broadcast use vstd::std_specs::hash::group_hash_axioms;
    broadcast use vstd::multiset::group_multiset_axioms;

    let pixels = image.pixels();
    if pixels.len() == 0 {
        return None;
    }
    let mut counts: HashMap<u32, usize> = HashMap::new();
    let mut best = pixels[0];
    let mut best_count: usize = 0;
    let mut i: usize = 0;
    proof {
        assert forall|c: Rgba| #[trigger] occurrences(pixels@.take(0), c) == 0 by {
            vstd::seq_lib::to_multiset_contains(pixels@.take(0), c);
        }
    }
    while i < pixels.len()
        invariant
            i <= pixels.len(),
            pixels@ == image@,
            best_count <= i,
            forall|c: Rgba|
                counts@.contains_key(#[trigger] color_key(c)) ==> counts@[color_key(c)]
                    == occurrences(pixels@.take(i as int), c),
            forall|c: Rgba|
                !counts@.contains_key(#[trigger] color_key(c)) ==> occurrences(
                    pixels@.take(i as int),
                    c,
                ) == 0,
            forall|c: Rgba| #[trigger] occurrences(pixels@.take(i as int), c) <= best_count,
            i > 0 ==> occurrences(pixels@.take(i as int), best) == best_count && best_count > 0,
        decreases pixels.len() - i,
    {
        let color = pixels[i];
        let key = key_of(color);
        let seen: usize = match counts.get(&key) {
            Some(n) => *n,
            None => 0,
        };
        let ghost before = pixels@.take(i as int);
        let ghost after = pixels@.take(i + 1);
        proof {
            assert(after =~= before.push(color));
            assert(seen == occurrences(before, color));
            assert forall|c: Rgba| #[trigger]
                occurrences(after, c) == occurrences(before, c) + (if c == color {
                    1nat
                } else {
                    0nat
                }) by {
                vstd::seq_lib::to_multiset_build(before, color);
                assert(after.to_multiset() == before.to_multiset().insert(color));
            }
        }
        let now: usize = seen + 1;
        counts.insert(key, now);
        if now > best_count {
            best = color;
            best_count = now;
        }
        proof {
            assert forall|c: Rgba| counts@.contains_key(#[trigger] color_key(c)) implies counts@[color_key(
                c,
            )] == occurrences(after, c) by {
                if color_key(c) == key {
                    lemma_color_key_distinct(c, color);
                }
            }
            assert forall|c: Rgba| !counts@.contains_key(#[trigger] color_key(c)) implies occurrences(
                after,
                c,
            ) == 0 by {
                assert(c != color);
            }
        }
        i += 1;
    }
    proof {
        assert(pixels@.take(pixels@.len() as int) =~= pixels@);
    }
    Some(best)
}

/// The digit, 0 to 9 and then A to F, for a number below sixteen.
pub open spec fn hex_digit(value: int) -> char {
    if value == 0 {
        '0'
    } else if value == 1 {
        '1'
    } else if value == 2 {
        '2'
    } else if value == 3 {
        '3'
    } else if value == 4 {
        '4'
    } else if value == 5 {
        '5'
    } else if value == 6 {
        '6'
    } else if value == 7 {
        '7'
    } else if value == 8 {
        '8'
    } else if value == 9 {
        '9'
    } else if value == 10 {
        'A'
    } else if value == 11 {
        'B'
    } else if value == 12 {
        'C'
    } else if value == 13 {
        'D'
    } else if value == 14 {
        'E'
    } else {
        'F'
    }
}

/// A byte in hexadecimal digits, capitals, without a leading zero.
pub open spec fn hex_upper(value: u8) -> Seq<char> {
    if value < 16 {
        seq![hex_digit(value as int)]
    } else {
        seq![hex_digit(value as int / 16), hex_digit(value as int % 16)]
    }
}

/// A colour as a hash sign and the hexadecimal digits of its red, green and
/// blue channels.
pub open spec fn color_hex(color: Rgba) -> Seq<char> {
    seq!['#'] + hex_upper(color.r) + hex_upper(color.g) + hex_upper(color.b)
}

fn hex_digit_text(value: u8) -> (r: &'static str)
    requires
        value < 16,
    ensures
        r@ == seq![hex_digit(value as int)],
{
    proof {
        reveal_strlit("0");
        reveal_strlit("1");
        reveal_strlit("2");
        reveal_strlit("3");
        reveal_strlit("4");
        reveal_strlit("5");
        reveal_strlit("6");
        reveal_strlit("7");
        reveal_strlit("8");
        reveal_strlit("9");
        reveal_strlit("A");
        reveal_strlit("B");
        reveal_strlit("C");
        reveal_strlit("D");
        reveal_strlit("E");
        reveal_strlit("F");
    }
    let r = match value {
        0 => "0",
        1 => "1",
        2 => "2",
        3 => "3",
        4 => "4",
        5 => "5",
        6 => "6",
        7 => "7",
        8 => "8",
        9 => "9",
        10 => "A",
        11 => "B",
        12 => "C",
        13 => "D",
        14 => "E",
        _ => "F",
    };
    assert(r@ =~= seq![hex_digit(value as int)]);
    r
}

/// Appends a byte in hexadecimal digits, capitals, without a leading zero.
fn append_hex_upper(text: &mut String, value: u8)
    ensures
        final(text)@ == old(text)@ + hex_upper(value),
{
    if value < 16 {
        text.append(hex_digit_text(value));
    } else {
        text.append(hex_digit_text(value / 16));
        text.append(hex_digit_text(value % 16));
    }
    assert(text@ =~= old(text)@ + hex_upper(value));
}

/// Returns the dominant colour of the image as a hash sign and hexadecimal
/// digits, if the image has pixels; see [`find_dominant_color`].
pub fn find_dominant_color_hex(image: &RgbaImage) -> (r: Option<String>)
    ensures
        r is None <==> image@.len() == 0,
        r matches Some(text) ==> exists|color: Rgba|
            text@ == #[trigger] color_hex(color) && occurrences(image@, color) > 0 && forall|
                other: Rgba,
            | occurrences(image@, other) <= occurrences(image@, color),
{
    match find_dominant_color(image) {
        None => None,
        Some(color) => {
            let mut text = String::from_str("#");
            append_hex_upper(&mut text, color.r);
            append_hex_upper(&mut text, color.g);
            append_hex_upper(&mut text, color.b);
            proof {
                reveal_strlit("#");
                assert(text@ =~= color_hex(color));
            }
            Some(text)
        },
    }
}

} // verus!
