//! Chroma-key removal: the matte border and the border-seeded flood fill.

use std::collections::HashSet;
use vstd::prelude::*;
use vstd::set_lib::lemma_int_range;
use vstd::set_lib::lemma_len_subset;
use vstd::set_lib::set_int_range;
use crate::buffer::lemma_pixel_index_bounds;
use crate::buffer::pixel_index;
use crate::buffer::MatchMask;
use crate::buffer::Rgba;
use crate::buffer::RgbaImage;

verus! {

/// Whether `(px, py)` lies on the one-pixel outline of the rectangle whose
/// top-left corner is `(left, top)`. A rectangle without area has no outline.
pub open spec fn on_outline(left: int, top: int, width: int, height: int, px: int, py: int) -> bool {
    &&& left <= px < left + width
    &&& top <= py < top + height
    &&& (px == left || px == left + width - 1 || py == top || py == top + height - 1)
}

/// How many rings lie between `(px, py)` and the outline of the rectangle:
/// 0 on the outline itself, negative outside the rectangle.
pub open spec fn border_depth(
    left: int,
    top: int,
    width: int,
    height: int,
    px: int,
    py: int,
) -> int {
    let dx = if px - left <= left + width - 1 - px {
        px - left
    } else {
        left + width - 1 - px
    };
    let dy = if py - top <= top + height - 1 - py {
        py - top
    } else {
        top + height - 1 - py
    };
    if dx <= dy {
        dx
    } else {
        dy
    }
}

/// A pixel is in ring `k` of a border exactly when it lies on the outline of
/// the rectangle inset by `k` pixels on every side.
pub proof fn lemma_border_depth_ring(
    left: int,
    top: int,
    width: int,
    height: int,
    px: int,
    py: int,
    k: int,
)
    ensures
        on_outline(left + k, top + k, width - 2 * k, height - 2 * k, px, py) <==> border_depth(
            left,
            top,
            width,
            height,
            px,
            py,
        ) == k,
{
}

/// Colours the part of one row between the columns `from` and `to`
/// (inclusive) that lies inside the image.
fn draw_horizontal(image: &mut RgbaImage, row: i64, from: i64, to: i64, color: Rgba)
    ensures
        final(image).same_size(old(image)),
        forall|px: int, py: int|
            old(image).in_bounds(px, py) ==> #[trigger] final(image).at(px, py) == (if py == row
                && from <= px <= to {
                color
            } else {
                old(image).at(px, py)
            }),
{
    let width = image.width();
    let height = image.height();
    if row < 0 || row >= height as i64 || width == 0 {
        return ;
    }
    let first: i64 = if from < 0 {
        0
    } else {
        from
    };
    let last: i64 = if to > width as i64 - 1 {
        width as i64 - 1
    } else {
        to
    };
    let mut px: i64 = first;
    while px <= last
        invariant
            image.same_size(old(image)),
            image.width() == width,
            image.height() == height,
            0 <= row < height,
            0 <= first <= px,
            px <= last + 1 || px == first,
            last < width,
            first == (if from < 0 {
                0
            } else {
                from as int
            }),
            last == (if to > width - 1 {
                width - 1
            } else {
                to as int
            }),
            forall|qx: int, qy: int|
                old(image).in_bounds(qx, qy) ==> #[trigger] image.at(qx, qy) == (if qy == row
                    && first <= qx < px {
                    color
                } else {
                    old(image).at(qx, qy)
                }),
        decreases last + 1 - px,
    {
        image.put_pixel(px as u32, row as u32, color);
        px += 1;
    }
}

/// Colours the part of one column between the rows `from` and `to`
/// (inclusive) that lies inside the image.
fn draw_vertical(image: &mut RgbaImage, column: i64, from: i64, to: i64, color: Rgba)
    ensures
        final(image).same_size(old(image)),
        forall|px: int, py: int|
            old(image).in_bounds(px, py) ==> #[trigger] final(image).at(px, py) == (if px == column
                && from <= py <= to {
                color
            } else {
                old(image).at(px, py)
            }),
{
    let width = image.width();
    let height = image.height();
    if column < 0 || column >= width as i64 || height == 0 {
        return ;
    }
    let first: i64 = if from < 0 {
        0
    } else {
        from
    };
    let last: i64 = if to > height as i64 - 1 {
        height as i64 - 1
    } else {
        to
    };
    let mut py: i64 = first;
    while py <= last
        invariant
            image.same_size(old(image)),
            image.width() == width,
            image.height() == height,
            0 <= column < width,
            0 <= first <= py,
            py <= last + 1 || py == first,
            last < height,
            first == (if from < 0 {
                0
            } else {
                from as int
            }),
            last == (if to > height - 1 {
                height - 1
            } else {
                to as int
            }),
            forall|qx: int, qy: int|
                old(image).in_bounds(qx, qy) ==> #[trigger] image.at(qx, qy) == (if qx == column
                    && first <= qy < py {
                    color
                } else {
                    old(image).at(qx, qy)
                }),
        decreases last + 1 - py,
    {
        image.put_pixel(column as u32, py as u32, color);
        py += 1;
    }
}

/// Colours the outline of the rectangle with top-left corner `(left, top)`,
/// as far as it lies inside the image: its top and bottom rows and its left
/// and right columns. Nothing is drawn for a rectangle without area.
pub fn draw_hollow_rect(
    image: &mut RgbaImage,
    left: i64,
    top: i64,
    width: u32,
    height: u32,
    color: Rgba,
)
    requires
        -0x1_0000_0000 <= left <= 0x1_0000_0000,
        -0x1_0000_0000 <= top <= 0x1_0000_0000,
    ensures
        final(image).same_size(old(image)),
        forall|px: int, py: int|
            old(image).in_bounds(px, py) ==> #[trigger] final(image).at(px, py) == (if on_outline(
                left as int,
                top as int,
                width as int,
                height as int,
                px,
                py,
            ) {
                color
            } else {
                old(image).at(px, py)
            }),
{
    if width == 0 || height == 0 {
        return ;
    }
    let right: i64 = left + (width as i64 - 1);
    let bottom: i64 = top + (height as i64 - 1);
    draw_horizontal(image, top, left, right, color);
    draw_horizontal(image, bottom, left, right, color);
    draw_vertical(image, left, top, bottom, color);
    draw_vertical(image, right, top, bottom, color);
}

/// Draws a border of `thickness` rings into the image: ring `k` is the
/// outline of the rectangle at `(x + k, y + k)` of size `width - 2k` by
/// `height - 2k`. Rings that would have no area are not drawn, so a
/// thickness beyond half the smaller side fills the rectangle and stops.
/// The image keeps its size; pixels off the border keep their colour.
pub fn draw_border(
    image: &mut RgbaImage,
    color: Rgba,
    x: i32,
    y: i32,
    width: u32,
    height: u32,
    thickness: u32,
)
    ensures
        final(image).same_size(old(image)),
        forall|px: int, py: int|
            old(image).in_bounds(px, py) ==> #[trigger] final(image).at(px, py) == (if 0
                <= border_depth(x as int, y as int, width as int, height as int, px, py)
                < thickness {
                color
            } else {
                old(image).at(px, py)
            }),
{
    let mut offset: u32 = 0;
    while offset < thickness && (offset as u64) * 2 < width as u64 && (offset as u64) * 2
        < height as u64
        invariant
            image.same_size(old(image)),
            offset <= thickness,
            forall|px: int, py: int|
                old(image).in_bounds(px, py) ==> #[trigger] image.at(px, py) == (if 0
                    <= border_depth(x as int, y as int, width as int, height as int, px, py)
                    < offset {
                    color
                } else {
                    old(image).at(px, py)
                }),
        decreases thickness - offset,
    {
        let ghost before = *image;
        draw_hollow_rect(
            image,
            x as i64 + offset as i64,
            y as i64 + offset as i64,
            width - offset * 2,
            height - offset * 2,
            color,
        );
        proof {
            assert forall|px: int, py: int| old(image).in_bounds(px, py) implies #[trigger] image.at(
                px,
                py,
            ) == (if 0 <= border_depth(x as int, y as int, width as int, height as int, px, py)
                < offset + 1 {
                color
            } else {
                old(image).at(px, py)
            }) by {
                lemma_border_depth_ring(
                    x as int,
                    y as int,
                    width as int,
                    height as int,
                    px,
                    py,
                    offset as int,
                );
                assert(before.in_bounds(px, py));
            }
        }
        offset += 1;
    }
}

/// Two coordinates are neighbours when they differ by one step along one
/// axis (4-connectivity).
pub open spec fn adjacent(a: (int, int), b: (int, int)) -> bool {
    ||| a.0 == b.0 && (a.1 == b.1 + 1 || b.1 == a.1 + 1)
    ||| a.1 == b.1 && (a.0 == b.0 + 1 || b.0 == a.0 + 1)
}

/// A pixel can be flooded when it lies inside the image and its colour
/// matches the key.
pub open spec fn fillable(matches: &MatchMask, p: (int, int)) -> bool {
    matches.in_bounds(p.0, p.1) && matches.at(p.0, p.1)
}

/// A non-empty walk over matching pixels in which each step goes to a
/// neighbour.
pub open spec fn fill_path(matches: &MatchMask, path: Seq<(int, int)>) -> bool {
    &&& path.len() > 0
    &&& forall|i: int| 0 <= i < path.len() ==> fillable(matches, #[trigger] path[i])
    &&& forall|i: int| 0 <= i < path.len() - 1 ==> adjacent(#[trigger] path[i], path[i + 1])
}

/// `to` can be reached from `from` over matching pixels only. The seed itself
/// is reachable exactly when it can be flooded.
pub open spec fn reachable(matches: &MatchMask, from: (int, int), to: (int, int)) -> bool {
    exists|path: Seq<(int, int)>|
        #[trigger] fill_path(matches, path) && path[0] == from && path.last() == to
}

/// A pixel that can be flooded is reachable from itself.
pub proof fn lemma_reachable_start(matches: &MatchMask, p: (int, int))
    requires
        fillable(matches, p),
    ensures
        reachable(matches, p, p),
{
    let path = seq![p];
    assert(fill_path(matches, path));
    assert(path[0] == p && path.last() == p);
}

/// A matching neighbour of a reachable pixel is reachable.
pub proof fn lemma_reachable_step(
    matches: &MatchMask,
    from: (int, int),
    via: (int, int),
    to: (int, int),
)
    requires
        reachable(matches, from, via),
        adjacent(via, to),
        fillable(matches, to),
    ensures
        reachable(matches, from, to),
{
    let path = choose|path: Seq<(int, int)>|
        #[trigger] fill_path(matches, path) && path[0] == from && path.last() == via;
    let longer = path.push(to);
    assert forall|i: int| 0 <= i < longer.len() implies fillable(matches, #[trigger] longer[i]) by {
        if i < path.len() {
            assert(longer[i] == path[i]);
        }
    }
    assert forall|i: int| 0 <= i < longer.len() - 1 implies adjacent(
        #[trigger] longer[i],
        longer[i + 1],
    ) by {
        assert(longer[i] == path[i]);
        if i + 1 < path.len() {
            assert(longer[i + 1] == path[i + 1]);
        }
    }
    assert(fill_path(matches, longer));
    assert(longer[0] == path[0]);
    assert(longer.last() == to);
}

/// A region that holds the seed and every matching neighbour of its own
/// pixels holds everything the flood can reach.
pub proof fn lemma_reachable_stays_inside(
    matches: &MatchMask,
    seed: (int, int),
    region: Set<(int, int)>,
    p: (int, int),
)
    requires
        region.contains(seed),
        forall|a: (int, int), b: (int, int)|
            region.contains(a) && #[trigger] adjacent(a, b) && fillable(matches, b)
                ==> region.contains(b),
        reachable(matches, seed, p),
    ensures
        region.contains(p),
{
    let path = choose|path: Seq<(int, int)>|
        #[trigger] fill_path(matches, path) && path[0] == seed && path.last() == p;
    lemma_path_stays_inside(matches, region, path, path.len() - 1);
}

proof fn lemma_path_stays_inside(
    matches: &MatchMask,
    region: Set<(int, int)>,
    path: Seq<(int, int)>,
    k: int,
)
    requires
        fill_path(matches, path),
        region.contains(path[0]),
        forall|a: (int, int), b: (int, int)|
            region.contains(a) && #[trigger] adjacent(a, b) && fillable(matches, b)
                ==> region.contains(b),
        0 <= k < path.len(),
    ensures
        region.contains(path[k]),
    decreases k,
{
    if k > 0 {
        lemma_path_stays_inside(matches, region, path, k - 1);
        assert(adjacent(path[k - 1], path[k - 1 + 1]));
        assert(fillable(matches, path[k]));
    }
}

/// `after` is what a flood from `seed` over `matches` makes of `before`.
pub open spec fn is_flood_fill_of(
    after: &RgbaImage,
    before: &RgbaImage,
    matches: &MatchMask,
    seed: (int, int),
    replacement: Rgba,
) -> bool {
    &&& after.same_size(before)
    &&& forall|px: int, py: int|
        before.in_bounds(px, py) ==> #[trigger] after.at(px, py) == (if reachable(
            matches,
            seed,
            (px, py),
        ) {
            replacement
        } else {
            before.at(px, py)
        })
}

/// The flood does not cross a boundary of pixels that do not match. Let
/// `region` hold the seed and every matching neighbour of its own pixels,
/// so that whatever borders on it from outside does not match. Then a pixel
/// outside the region keeps its colour.
pub proof fn lemma_flood_fill_keeps_enclosed(
    after: &RgbaImage,
    before: &RgbaImage,
    matches: &MatchMask,
    seed: (int, int),
    replacement: Rgba,
    region: Set<(int, int)>,
    px: int,
    py: int,
)
    requires
        is_flood_fill_of(after, before, matches, seed, replacement),
        region.contains(seed),
        forall|a: (int, int), b: (int, int)|
            region.contains(a) && #[trigger] adjacent(a, b) && fillable(matches, b)
                ==> region.contains(b),
        before.in_bounds(px, py),
        !region.contains((px, py)),
    ensures
        after.at(px, py) == before.at(px, py),
{
    if reachable(matches, seed, (px, py)) {
        lemma_reachable_stays_inside(matches, seed, region, (px, py));
    }
}

proof fn lemma_second_flood_inside_first(
    first: &MatchMask,
    second: &MatchMask,
    seed: (int, int),
    path: Seq<(int, int)>,
    k: int,
)
    requires
        second.same_size(first),
        forall|px: int, py: int|
            first.in_bounds(px, py) && !reachable(first, seed, (px, py)) ==> #[trigger] second.at(
                px,
                py,
            ) == first.at(px, py),
        fill_path(second, path),
        path[0] == seed,
        0 <= k < path.len(),
    ensures
        reachable(first, seed, path[k]),
    decreases k,
{
    let p = path[k];
    assert(fillable(second, p));
    if !reachable(first, seed, p) {
        assert(second.at(p.0, p.1) == first.at(p.0, p.1));
        assert(fillable(first, p));
        if k == 0 {
            lemma_reachable_start(first, p);
        } else {
            lemma_second_flood_inside_first(first, second, seed, path, k - 1);
            assert(adjacent(path[k - 1], path[k - 1 + 1]));
            lemma_reachable_step(first, seed, path[k - 1], p);
        }
    }
}

/// Flooding is idempotent. Let a pixel match when `key_like` holds of its
/// colour. If `once` is the flood of `image` from `seed`, and `twice` the
/// flood of `once` from the same seed with the same replacement, then
/// `twice` equals `once` pixel for pixel.
pub proof fn lemma_flood_fill_idempotent(
    image: &RgbaImage,
    once: &RgbaImage,
    twice: &RgbaImage,
    first: &MatchMask,
    second: &MatchMask,
    seed: (int, int),
    replacement: Rgba,
    key_like: spec_fn(Rgba) -> bool,
)
    requires
        first.same_size(image),
        second.same_size(image),
        forall|px: int, py: int|
            image.in_bounds(px, py) ==> #[trigger] first.at(px, py) == key_like(image.at(px, py)),
        is_flood_fill_of(once, image, first, seed, replacement),
        forall|px: int, py: int|
            image.in_bounds(px, py) ==> #[trigger] second.at(px, py) == key_like(once.at(px, py)),
        is_flood_fill_of(twice, once, second, seed, replacement),
    ensures
        twice.same_size(once),
        forall|px: int, py: int| once.in_bounds(px, py) ==> #[trigger] twice.at(px, py) == once.at(px, py),
{
    assert forall|px: int, py: int| once.in_bounds(px, py) implies #[trigger] twice.at(px, py)
        == once.at(px, py) by {
        if reachable(second, seed, (px, py)) {
            let path = choose|path: Seq<(int, int)>|
                #[trigger] fill_path(second, path) && path[0] == seed && path.last() == (px, py);
            assert forall|qx: int, qy: int|
                first.in_bounds(qx, qy) && !reachable(first, seed, (qx, qy)) implies #[trigger]
                second.at(qx, qy) == first.at(qx, qy) by {
                assert(once.at(qx, qy) == image.at(qx, qy));
            }
            lemma_second_flood_inside_first(first, second, seed, path, path.len() - 1);
        }
    }
}

/// The pixel `p` has been examined and flooded.
spec fn flooded(matches: &MatchMask, seen: Set<int>, p: (int, int)) -> bool {
    fillable(matches, p) && seen.contains(pixel_index(matches.width() as int, p.0, p.1))
}

/// The coordinate `q` needs no further attention or is still on the stack.
spec fn pending(seen: Set<int>, todo: Seq<(int, int)>, w: int, h: int, q: (int, int)) -> bool {
    ||| !(0 <= q.0 < w && 0 <= q.1 < h)
    ||| seen.contains(pixel_index(w, q.0, q.1))
    ||| todo.contains(q)
}

spec fn neighbours_pending(
    seen: Set<int>,
    todo: Seq<(int, int)>,
    w: int,
    h: int,
    p: (int, int),
) -> bool {
    &&& pending(seen, todo, w, h, (p.0, p.1 + 1))
    &&& pending(seen, todo, w, h, (p.0 + 1, p.1))
    &&& pending(seen, todo, w, h, (p.0, p.1 - 1))
    &&& pending(seen, todo, w, h, (p.0 - 1, p.1))
}

/// What holds between two rounds of the flood: `seen` are the positions
/// examined so far, `todo` the coordinates on the stack.
spec fn fill_invariant(
    matches: &MatchMask,
    seed: (int, int),
    seen: Set<int>,
    todo: Seq<(int, int)>,
) -> bool {
    let w = matches.width() as int;
    let h = matches.height() as int;
    &&& seen.subset_of(set_int_range(0, w * h))
    &&& forall|px: int, py: int| #[trigger]
        flooded(matches, seen, (px, py)) ==> reachable(matches, seed, (px, py))
    &&& forall|j: int|
        0 <= j < todo.len() && fillable(matches, #[trigger] todo[j]) ==> reachable(
            matches,
            seed,
            todo[j],
        )
    &&& pending(seen, todo, w, h, seed)
    &&& forall|px: int, py: int| #[trigger]
        flooded(matches, seen, (px, py)) ==> neighbours_pending(seen, todo, w, h, (px, py))
}

proof fn lemma_pending_kept(
    seen: Set<int>,
    old_todo: Seq<(int, int)>,
    seen2: Set<int>,
    todo2: Seq<(int, int)>,
    w: int,
    h: int,
    q: (int, int),
)
    requires
        pending(seen, old_todo, w, h, q),
        seen.subset_of(seen2),
        old_todo.len() > 0,
        todo2.len() >= old_todo.len() - 1,
        forall|j: int| 0 <= j < old_todo.len() - 1 ==> todo2[j] == old_todo[j],
        pending(seen2, todo2, w, h, old_todo.last()),
    ensures
        pending(seen2, todo2, w, h, q),
{
    if 0 <= q.0 < w && 0 <= q.1 < h && !seen.contains(pixel_index(w, q.0, q.1)) {
        let j = choose|j: int| 0 <= j < old_todo.len() && old_todo[j] == q;
        if j < old_todo.len() - 1 {
            assert(todo2[j] == q);
        }
    }
}

/// The top of the stack was out of bounds, seen before, or does not match:
/// it leaves the stack and nothing else changes.
proof fn lemma_fill_skip(
    matches: &MatchMask,
    seed: (int, int),
    seen: Set<int>,
    old_todo: Seq<(int, int)>,
    seen2: Set<int>,
)
    requires
        fill_invariant(matches, seed, seen, old_todo),
        old_todo.len() > 0,
        seen2 == seen || (seen2 == seen.insert(
            pixel_index(matches.width() as int, old_todo.last().0, old_todo.last().1),
        ) && matches.in_bounds(old_todo.last().0, old_todo.last().1) && !fillable(
            matches,
            old_todo.last(),
        )),
        !matches.in_bounds(old_todo.last().0, old_todo.last().1) || seen2.contains(
            pixel_index(matches.width() as int, old_todo.last().0, old_todo.last().1),
        ),
    ensures
        fill_invariant(matches, seed, seen2, old_todo.drop_last()),
{
    let w = matches.width() as int;
    let h = matches.height() as int;
    let s = old_todo.last();
    let todo2 = old_todo.drop_last();
    if matches.in_bounds(s.0, s.1) {
        lemma_pixel_index_bounds(w, h, s.0, s.1);
    }
    assert(pending(seen2, todo2, w, h, s));
    assert forall|px: int, py: int| #[trigger] flooded(matches, seen2, (px, py)) implies flooded(
        matches,
        seen,
        (px, py),
    ) by {
        if seen2 != seen {
            lemma_pixel_index_bounds(w, h, px, py);
        }
    }
    assert forall|j: int| 0 <= j < todo2.len() && fillable(
        matches,
        #[trigger] todo2[j],
    ) implies reachable(matches, seed, todo2[j]) by {
        assert(todo2[j] == old_todo[j]);
    }
    lemma_pending_kept(seen, old_todo, seen2, todo2, w, h, seed);
    assert forall|px: int, py: int| #[trigger]
        flooded(matches, seen2, (px, py)) implies neighbours_pending(
        seen2,
        todo2,
        w,
        h,
        (px, py),
    ) by {
        assert(flooded(matches, seen, (px, py)));
        lemma_pending_kept(seen, old_todo, seen2, todo2, w, h, (px, py + 1));
        lemma_pending_kept(seen, old_todo, seen2, todo2, w, h, (px + 1, py));
        lemma_pending_kept(seen, old_todo, seen2, todo2, w, h, (px, py - 1));
        lemma_pending_kept(seen, old_todo, seen2, todo2, w, h, (px - 1, py));
    }
}

/// The top of the stack is a matching pixel seen for the first time: it is
/// flooded and its four neighbours take its place on the stack.
proof fn lemma_fill_spread(
    matches: &MatchMask,
    seed: (int, int),
    seen: Set<int>,
    old_todo: Seq<(int, int)>,
)
    requires
        fill_invariant(matches, seed, seen, old_todo),
        old_todo.len() > 0,
        fillable(matches, old_todo.last()),
        !seen.contains(pixel_index(matches.width() as int, old_todo.last().0, old_todo.last().1)),
    ensures
        fill_invariant(
            matches,
            seed,
            seen.insert(pixel_index(matches.width() as int, old_todo.last().0, old_todo.last().1)),
            old_todo.drop_last().push((old_todo.last().0, old_todo.last().1 + 1)).push(
                (old_todo.last().0 + 1, old_todo.last().1),
            ).push((old_todo.last().0, old_todo.last().1 - 1)).push(
                (old_todo.last().0 - 1, old_todo.last().1),
            ),
        ),
{
    let w = matches.width() as int;
    let h = matches.height() as int;
    let s = old_todo.last();
    let base = old_todo.drop_last();
    let seen2 = seen.insert(pixel_index(w, s.0, s.1));
    let todo2 = base.push((s.0, s.1 + 1)).push((s.0 + 1, s.1)).push((s.0, s.1 - 1)).push(
        (s.0 - 1, s.1),
    );
    let n = base.len() as int;
    lemma_pixel_index_bounds(w, h, s.0, s.1);
    assert(todo2[n] == (s.0, s.1 + 1));
    assert(todo2[n + 1] == (s.0 + 1, s.1));
    assert(todo2[n + 2] == (s.0, s.1 - 1));
    assert(todo2[n + 3] == (s.0 - 1, s.1));
    assert(reachable(matches, seed, s)) by {
        assert(old_todo[old_todo.len() - 1] == s);
    }
    assert(pending(seen2, todo2, w, h, s));
    assert forall|px: int, py: int| #[trigger] flooded(matches, seen2, (px, py)) implies flooded(
        matches,
        seen,
        (px, py),
    ) || (px, py) == s by {
        lemma_pixel_index_bounds(w, h, px, py);
    }
    assert forall|j: int| 0 <= j < todo2.len() && fillable(
        matches,
        #[trigger] todo2[j],
    ) implies reachable(matches, seed, todo2[j]) by {
        if j < n {
            assert(todo2[j] == old_todo[j]);
        } else {
            lemma_reachable_step(matches, seed, s, todo2[j]);
        }
    }
    lemma_pending_kept(seen, old_todo, seen2, todo2, w, h, seed);
    assert forall|px: int, py: int| #[trigger]
        flooded(matches, seen2, (px, py)) implies neighbours_pending(
        seen2,
        todo2,
        w,
        h,
        (px, py),
    ) by {
        if (px, py) == s {
        } else {
            assert(flooded(matches, seen, (px, py)));
            lemma_pending_kept(seen, old_todo, seen2, todo2, w, h, (px, py + 1));
            lemma_pending_kept(seen, old_todo, seen2, todo2, w, h, (px + 1, py));
            lemma_pending_kept(seen, old_todo, seen2, todo2, w, h, (px, py - 1));
            lemma_pending_kept(seen, old_todo, seen2, todo2, w, h, (px - 1, py));
        }
    }
}

/// Once the stack is empty, every pixel on a path from the seed is flooded.
proof fn lemma_fill_complete(
    matches: &MatchMask,
    seed: (int, int),
    seen: Set<int>,
    path: Seq<(int, int)>,
    k: int,
)
    requires
        fill_invariant(matches, seed, seen, Seq::empty()),
        fill_path(matches, path),
        path[0] == seed,
        0 <= k < path.len(),
    ensures
        flooded(matches, seen, path[k]),
    decreases k,
{
    let w = matches.width() as int;
    let h = matches.height() as int;
    let none = Seq::<(int, int)>::empty();
    assert(fillable(matches, path[k]));
    if k == 0 {
        assert(pending(seen, none, w, h, seed));
    } else {
        lemma_fill_complete(matches, seed, seen, path, k - 1);
        let a = path[k - 1];
        assert(adjacent(a, path[k - 1 + 1]));
        assert(flooded(matches, seen, (a.0, a.1)));
        assert(neighbours_pending(seen, none, w, h, (a.0, a.1)));
        assert(pending(seen, none, w, h, path[k]));
    }
}

/// Replaces with `replacement` every pixel that can be reached from the seed
/// `(x, y)` by steps to a neighbour (up, down, left, right) over pixels that
/// `matches` flags, the seed included; every other pixel keeps its colour. A
/// seed that lies outside the image or is not flagged changes nothing.
///
/// `matches` says for each pixel of `image` whether its colour is within the
/// fuzz of the key colour.
pub fn flood_fill(
    image: &mut RgbaImage,
    x: i32,
    y: i32,
    matches: &MatchMask,
    replacement: Rgba,
)
    requires
        matches.same_size(old(image)),
    ensures
        is_flood_fill_of(final(image), old(image), matches, (x as int, y as int), replacement),
{
    broadcast use vstd::std_specs::hash::group_hash_axioms;

    let width = image.width();
    let height = image.height();
    let ghost initial = *old(image);
    let ghost seed = (x as int, y as int);
    let ghost w = width as int;
    let ghost h = height as int;
    let mut stack: Vec<(i64, i64)> = Vec::new();
    stack.push((x as i64, y as i64));
    let mut visited: HashSet<usize> = HashSet::new();
    let ghost mut seen: Set<int> = Set::empty();
    let ghost mut todo: Seq<(int, int)> = seq![seed];
    proof {
        assert(todo[0] == seed);
        assert(0 <= w * h) by (nonlinear_arith)
            requires
                0 <= w,
                0 <= h,
        ;
        lemma_int_range(0, w * h);
        if fillable(matches, seed) {
            lemma_reachable_start(matches, seed);
        }
        assert(pending(seen, todo, w, h, seed));
        assert(fill_invariant(matches, seed, seen, todo));
    }
    while stack.len() > 0
        invariant
            image.same_size(matches),
            matches.width() == width,
            matches.height() == height,
            w == width,
            h == height,
            seed == (x as int, y as int),
            0 <= w * h,
            image@.len() == w * h,
            todo.len() == stack.len(),
            forall|j: int|
                0 <= j < stack.len() ==> #[trigger] todo[j] == (stack[j].0 as int, stack[j].1 as int),
            forall|k: usize| visited@.contains(k) <==> seen.contains(k as int),
            fill_invariant(matches, seed, seen, todo),
            seen.finite(),
            seen.len() <= w * h,
            forall|px: int, py: int|
                matches.in_bounds(px, py) ==> #[trigger] image.at(px, py) == (if flooded(
                    matches,
                    seen,
                    (px, py),
                ) {
                    replacement
                } else {
                    initial.at(px, py)
                }),
        decreases w * h - seen.len(), stack.len(),
    {
        let ghost old_todo = todo;
        let ghost old_seen = seen;
        let (cx, cy) = stack.pop().unwrap();
        let ghost s = (cx as int, cy as int);
        proof {
            todo = todo.drop_last();
            assert(old_todo.last() == s);
        }
        if 0 <= cx && cx < width as i64 && 0 <= cy && cy < height as i64 {
            let at = matches.offset(cx as u32, cy as u32);
            if visited.insert(at) {
                proof {
                    seen = old_seen.insert(at as int);
                    lemma_int_range(0, w * h);
                }
                if matches.get_pixel(cx as u32, cy as u32) {
                    let ghost before = *image;
                    image.put_pixel(cx as u32, cy as u32, replacement);
                    stack.push((cx, cy + 1));
                    stack.push((cx + 1, cy));
                    stack.push((cx, cy - 1));
                    stack.push((cx - 1, cy));
                    proof {
                        todo = todo.push((s.0, s.1 + 1)).push((s.0 + 1, s.1)).push(
                            (s.0, s.1 - 1),
                        ).push((s.0 - 1, s.1));
                        lemma_fill_spread(matches, seed, old_seen, old_todo);
                        lemma_len_subset(seen, set_int_range(0, w * h));
                        assert forall|px: int, py: int| matches.in_bounds(px, py) implies #[trigger]
                            image.at(px, py) == (if flooded(matches, seen, (px, py)) {
                                replacement
                            } else {
                                initial.at(px, py)
                            }) by {
                            lemma_pixel_index_bounds(w, h, px, py);
                            lemma_pixel_index_bounds(w, h, s.0, s.1);
                            assert(before.at(px, py) == (if flooded(matches, old_seen, (px, py)) {
                                replacement
                            } else {
                                initial.at(px, py)
                            }));
                        }
                    }
                } else {
                    proof {
                        lemma_fill_skip(matches, seed, old_seen, old_todo, seen);
                        lemma_len_subset(seen, set_int_range(0, w * h));
                        assert forall|px: int, py: int| matches.in_bounds(px, py) implies (flooded(
                            matches,
                            seen,
                            (px, py),
                        ) <==> flooded(matches, old_seen, (px, py))) by {
                            lemma_pixel_index_bounds(w, h, px, py);
                            lemma_pixel_index_bounds(w, h, s.0, s.1);
                        }
                    }
                }
            } else {
                proof {
                    lemma_fill_skip(matches, seed, old_seen, old_todo, seen);
                }
            }
        } else {
            proof {
                lemma_fill_skip(matches, seed, old_seen, old_todo, seen);
            }
        }
    }
    proof {
        assert(todo =~= Seq::empty());
        assert forall|px: int, py: int| initial.in_bounds(px, py) implies #[trigger] image.at(
            px,
            py,
        ) == (if reachable(matches, seed, (px, py)) {
            replacement
        } else {
            initial.at(px, py)
        }) by {
            if reachable(matches, seed, (px, py)) {
                let path = choose|path: Seq<(int, int)>|
                    #[trigger] fill_path(matches, path) && path[0] == seed && path.last() == (
                        px,
                        py,
                    );
                lemma_fill_complete(matches, seed, seen, path, path.len() - 1);
            }
        }
    }
}

} // verus!
