//! Splitting a mask into one mask per connected component.

use vstd::prelude::*;
use crate::buffer::GrayImage;
use crate::buffer::Image;
use crate::buffer::lemma_pixel_index_bounds;
use crate::buffer::lemma_pixel_index_coords;
use crate::buffer::pixel_index;
use crate::buffer::LabelImage;
use crate::kernels::component_labels;
use crate::kernels::connected_components;
use crate::drawing::adjacent;
use crate::kernels::has_joined_pixel;
use crate::kernels::joined;
use crate::kernels::labels_follow_components;
use crate::kernels::numbered_in_scan_order;
use crate::kernels::same_value_path;
use crate::kernels::starts_component;

verus! {

/// A component id occurs in a label map; 0 is the background and no id.
pub open spec fn label_present(labels: Seq<u32>, id: u32) -> bool {
    id != 0 && labels.contains(id)
}

/// The ids that occur in a label map.
pub open spec fn present_labels(labels: Seq<u32>) -> Set<u32> {
    Set::new(|id: u32| label_present(labels, id))
}

/// The pixels of the blob of one component: full intensity where the label
/// map holds `id`, zero elsewhere.
pub open spec fn blob_pixels(labels: Seq<u32>, id: u32) -> Seq<u8> {
    Seq::new(
        labels.len(),
        |i: int|
            if labels[i] == id {
                255u8
            } else {
                0u8
            },
    )
}

pub open spec fn strictly_ascending(ids: Seq<u32>) -> bool {
    forall|i: int, j: int| 0 <= i < j < ids.len() ==> ids[i] < ids[j]
}

/// `blobs` are the blobs of the label map, one for each id of `ids`, and
/// `ids` are the ids that occur in the map, in ascending order.
pub open spec fn is_separation(
    blobs: Seq<GrayImage>,
    labels: Seq<u32>,
    width: u32,
    height: u32,
    ids: Seq<u32>,
) -> bool {
    &&& blobs.len() == ids.len()
    &&& strictly_ascending(ids)
    &&& forall|id: u32| label_present(labels, id) <==> ids.contains(id)
    &&& forall|i: int|
        0 <= i < blobs.len() ==> (#[trigger] blobs[i]).width() == width && blobs[i].height()
            == height && blobs[i]@ == blob_pixels(labels, ids[i])
}

/// The smallest id above `floor` that occurs in the label map, if there is
/// one.
pub fn next_label_above(labels: &LabelImage, floor: u32) -> (r: Option<u32>)
    ensures
        r matches Some(id) ==> id > floor && label_present(labels@, id) && forall|other: u32|
            label_present(labels@, other) && other > floor ==> id <= other,
        r is None ==> forall|other: u32| label_present(labels@, other) ==> other <= floor,
{
    let pixels = labels.pixels();
    let mut best: Option<u32> = None;
    let mut i: usize = 0;
    while i < pixels.len()
        invariant
            i <= pixels.len(),
            pixels@ == labels@,
            best matches Some(id) ==> id > floor && label_present(labels@, id),
            forall|k: int|
                0 <= k < i && pixels@[k] > floor ==> best.is_some() && best.unwrap() <= pixels@[k],
        decreases pixels.len() - i,
    {
        let value = pixels[i];
        if value > floor {
            let better = match best {
                Some(id) => value < id,
                None => true,
            };
            if better {
                best = Some(value);
            }
        }
        i += 1;
    }
    best
}

/// The blob of one component: a mask of the size of the label map that is
/// 255 where the map holds `id` and 0 elsewhere.
pub fn blob_of_label(labels: &LabelImage, id: u32) -> (blob: GrayImage)
    ensures
        blob.same_size(labels),
        blob@ == blob_pixels(labels@, id),
{
    let width = labels.width();
    let height = labels.height();
    let pixels = labels.pixels();
    let mut out: Vec<u8> = Vec::with_capacity(pixels.len());
    let mut i: usize = 0;
    while i < pixels.len()
        invariant
            i <= pixels.len(),
            pixels@ == labels@,
            out@.len() == i,
            forall|k: int|
                0 <= k < i ==> out@[k] == (if pixels@[k] == id {
                    255u8
                } else {
                    0u8
                }),
        decreases pixels.len() - i,
    {
        out.push(
            if pixels[i] == id {
                255u8
            } else {
                0u8
            },
        );
        i += 1;
    }
    Image::from_pixels(width, height, out).unwrap()
}

/// Makes one blob of every component id of a label map, in ascending order
/// of the ids. There are as many blobs as distinct ids other than 0.
pub fn separate_labels(labels: &LabelImage) -> (blobs: Vec<GrayImage>)
    ensures
        exists|ids: Seq<u32>|
            is_separation(blobs@, labels@, labels.width(), labels.height(), ids),
        present_labels(labels@).finite(),
        blobs@.len() == present_labels(labels@).len(),
{
    let mut blobs: Vec<GrayImage> = Vec::new();
    let ghost mut ids: Seq<u32> = Seq::empty();
    let mut next = next_label_above(labels, 0);
    let ghost mut floor: u32 = 0;
    while next.is_some()
        invariant
            blobs@.len() == ids.len(),
            strictly_ascending(ids),
            forall|k: int| 0 <= k < ids.len() ==> 0 < #[trigger] ids[k] <= floor,
            forall|k: int| 0 <= k < ids.len() ==> label_present(labels@, #[trigger] ids[k]),
            forall|id: u32| label_present(labels@, id) && id <= floor ==> ids.contains(id),
            forall|i: int|
                0 <= i < blobs@.len() ==> (#[trigger] blobs@[i]).width() == labels.width()
                    && blobs@[i].height() == labels.height() && blobs@[i]@ == blob_pixels(
                    labels@,
                    ids[i],
                ),
            next matches Some(id) ==> id > floor && label_present(labels@, id) && forall|other: u32|
                label_present(labels@, other) && other > floor ==> id <= other,
            next is None ==> forall|other: u32| label_present(labels@, other) ==> other <= floor,
        decreases
                (if next.is_some() {
                    u32::MAX - floor
                } else {
                    0
                }),
    {
        let id = next.unwrap();
        let blob = blob_of_label(labels, id);
        let ghost old_ids = ids;
        blobs.push(blob);
        proof {
            ids = ids.push(id);
            floor = id;
            assert forall|other: u32| label_present(labels@, other) && other <= floor implies ids.contains(
                other,
            ) by {
                if other == id {
                    assert(ids[ids.len() - 1] == id);
                } else {
                    assert(old_ids.contains(other));
                    let k = choose|k: int| 0 <= k < old_ids.len() && old_ids[k] == other;
                    assert(ids[k] == other);
                }
            }
        }
        next = next_label_above(labels, id);
    }
    proof {
        assert forall|id: u32| label_present(labels@, id) <==> ids.contains(id) by {
            if ids.contains(id) {
                let k = choose|k: int| 0 <= k < ids.len() && ids[k] == id;
                assert(label_present(labels@, ids[k]));
            }
        }
        assert(is_separation(blobs@, labels@, labels.width(), labels.height(), ids));
        lemma_count_of_ids(labels@, ids);
    }
    blobs
}

/// An ascending list of exactly the ids that occur has as many items as
/// there are distinct ids.
proof fn lemma_count_of_ids(labels: Seq<u32>, ids: Seq<u32>)
    requires
        strictly_ascending(ids),
        forall|id: u32| label_present(labels, id) <==> ids.contains(id),
    ensures
        present_labels(labels).finite(),
        present_labels(labels).len() == ids.len(),
{
    assert(ids.no_duplicates());
    ids.unique_seq_to_set();
    assert(ids.to_set() =~= present_labels(labels));
}

/// The blobs of a separation do not overlap: no pixel is foreground in two
/// of them.
pub proof fn lemma_blobs_disjoint(
    blobs: Seq<GrayImage>,
    labels: Seq<u32>,
    width: u32,
    height: u32,
    ids: Seq<u32>,
    i: int,
    j: int,
    pixel: int,
)
    requires
        is_separation(blobs, labels, width, height, ids),
        0 <= i < blobs.len(),
        0 <= j < blobs.len(),
        i != j,
        0 <= pixel < labels.len(),
    ensures
        blobs[i]@[pixel] == 0 || blobs[j]@[pixel] == 0,
{
    assert(blobs[i].width() == width);
    assert(blobs[j].width() == width);
    if i < j {
        assert(ids[i] < ids[j]);
    } else {
        assert(ids[j] < ids[i]);
    }
}

/// The label map in which every pixel is a component of its own: the ids
/// count up from 1 in the order of the scan.
pub open spec fn own_labels(count: nat) -> Seq<u32> {
    Seq::new(count, |i: int| (i + 1) as u32)
}

/// The label map of a mask. Neighbours (left, right, above, below) of equal
/// value that is not 0 share a component, and 0 is the background. Where
/// every pixel differs from its neighbours and none is 0, every pixel is a
/// component of its own; else the labelling kernel gives the map.
pub open spec fn mask_labels(image: &GrayImage) -> Seq<u32> {
    if image.width() == 0 || image.height() == 0 || has_joined_pixel(image) {
        component_labels(image@, image.width(), image.height())
    } else {
        own_labels(image@.len())
    }
}

spec fn scanned(qx: int, qy: int, x: int, y: int) -> bool {
    qy < y || (qy == y && qx < x)
}

/// Whether some pixel is 0 or equals the pixel to its left or above it.
fn find_joined_pixel(image: &GrayImage) -> (r: bool)
    ensures
        r == has_joined_pixel(image),
{
    let width = image.width();
    let height = image.height();
    let mut found = false;
    let ghost mut at: (int, int) = (0, 0);
    let mut y: u32 = 0;
    while y < height
        invariant
            y <= height,
            image.width() == width,
            image.height() == height,
            found ==> image.in_bounds(at.0, at.1) && !starts_component(image, at.0, at.1),
            !found ==> forall|qx: int, qy: int|
                image.in_bounds(qx, qy) && scanned(qx, qy, 0, y as int) ==> #[trigger] starts_component(
                    image,
                    qx,
                    qy,
                ),
        decreases height - y,
    {
        let mut x: u32 = 0;
        while x < width
            invariant
                x <= width,
                y < height,
                image.width() == width,
                image.height() == height,
                found ==> image.in_bounds(at.0, at.1) && !starts_component(image, at.0, at.1),
                !found ==> forall|qx: int, qy: int|
                    image.in_bounds(qx, qy) && scanned(qx, qy, x as int, y as int)
                        ==> #[trigger] starts_component(image, qx, qy),
            decreases width - x,
        {
            let value = image.get_pixel(x, y);
            let joined = value == 0 || (x > 0 && image.get_pixel(x - 1, y) == value) || (y > 0
                && image.get_pixel(x, y - 1) == value);
            if joined && !found {
                found = true;
                proof {
                    at = (x as int, y as int);
                }
            }
            x += 1;
        }
        y += 1;
    }
    proof {
        if !found {
            assert forall|qx: int, qy: int| image.in_bounds(qx, qy) implies #[trigger] starts_component(
                image,
                qx,
                qy,
            ) by {
                assert(scanned(qx, qy, 0, height as int));
            }
        }
    }
    found
}

/// Where every pixel of a mask starts a component of its own, a walk over
/// pixels of one value cannot leave its first pixel.
proof fn lemma_lone_pixels_stay(image: &GrayImage, path: Seq<(int, int)>, k: int)
    requires
        forall|x: int, y: int| image.in_bounds(x, y) ==> #[trigger] starts_component(image, x, y),
        same_value_path(image@, image.width() as int, image.height() as int, path),
        0 <= k < path.len(),
    ensures
        path[k] == path[0],
    decreases k,
{
    if k > 0 {
        lemma_lone_pixels_stay(image, path, k - 1);
        let u = path[k - 1];
        let v = path[k];
        assert(adjacent(path[k - 1], path[k - 1 + 1]));
        assert(image.in_bounds(u.0, u.1) && image.in_bounds(v.0, v.1));
        assert(image.at(u.0, u.1) == image.at(v.0, v.1));
        assert(starts_component(image, u.0, u.1));
        assert(starts_component(image, v.0, v.1));
    }
}

/// Labels the components of a mask: 0 for the pixels that are 0, and for
/// the others the id of their component, the ids counting up from 1 in the
/// order in which a scan by rows first meets the components. Two pixels
/// belong to one component when a walk over neighbours of their value joins
/// them.
pub fn label_components(image: &GrayImage) -> (labels: LabelImage)
    requires
        image.width() * image.height() < 0x1_0000_0000,
    ensures
        labels.same_size(image),
        labels@ == mask_labels(image),
        labels@.len() == image@.len(),
        forall|i: int| 0 <= i < labels@.len() ==> (labels@[i] == 0 <==> image@[i] == 0),
        labels_follow_components(
            labels@,
            image@,
            image.width() as int,
            image.height() as int,
        ),
        numbered_in_scan_order(labels@),
{
    let width = image.width();
    let height = image.height();
    if width == 0 || height == 0 || find_joined_pixel(image) {
        return connected_components(image);
    }
    let count = image.pixels().len();
    let mut ids: Vec<u32> = Vec::with_capacity(count);
    let mut i: usize = 0;
    while i < count
        invariant
            i <= count,
            count == width * height,
            count < 0x1_0000_0000,
            ids@.len() == i,
            forall|k: int| 0 <= k < i ==> ids@[k] == (k + 1) as u32,
        decreases count - i,
    {
        ids.push((i + 1) as u32);
        i += 1;
    }
    proof {
        assert(ids@ =~= own_labels(image@.len()));
        assert forall|k: int| 0 <= k < ids@.len() implies (ids@[k] == 0 <==> image@[k] == 0) by {
            lemma_pixel_index_coords(width as int, height as int, k);
            assert(starts_component(image, k % (width as int), k / (width as int)));
        }
        assert forall|k: int| 0 <= k < ids@.len() && #[trigger] ids@[k] > 1 implies exists|j: int|
            0 <= j < k && #[trigger] ids@[j] == ids@[k] - 1 by {
            assert(ids@[k - 1] == ids@[k] - 1);
        }
        let w = width as int;
        let h = height as int;
        assert forall|a: (int, int), b: (int, int)|
            0 <= a.0 < w && 0 <= a.1 < h && 0 <= b.0 < w && 0 <= b.1 < h && image@[pixel_index(
                w,
                a.0,
                a.1,
            )] != 0 && image@[pixel_index(w, b.0, b.1)] != 0 implies (ids@[pixel_index(w, a.0, a.1)]
            == ids@[pixel_index(w, b.0, b.1)] <==> #[trigger] joined(image@, w, h, a, b)) by {
            lemma_pixel_index_bounds(w, h, a.0, a.1);
            lemma_pixel_index_bounds(w, h, b.0, b.1);
            if joined(image@, w, h, a, b) {
                let path = choose|path: Seq<(int, int)>|
                    #[trigger] same_value_path(image@, w, h, path) && path[0] == a && path.last()
                        == b;
                lemma_lone_pixels_stay(image, path, path.len() - 1);
            }
            if ids@[pixel_index(w, a.0, a.1)] == ids@[pixel_index(w, b.0, b.1)] {
                assert(a == b);
                let path = seq![a];
                assert(same_value_path(image@, w, h, path));
                assert(path[0] == a && path.last() == b);
            }
        }
    }
    Image::from_pixels(width, height, ids).unwrap()
}

/// Where the ids are handed out in the order of the scan, every number from
/// 1 up to an id that occurs occurs too.
proof fn lemma_ids_below_occur(labels: Seq<u32>, id: u32, below: u32)
    requires
        numbered_in_scan_order(labels),
        label_present(labels, id),
        0 < below <= id,
    ensures
        label_present(labels, below),
    decreases id - below,
{
    if below < id {
        let i = choose|i: int| 0 <= i < labels.len() && labels[i] == id;
        assert(labels[i] > 1);
        let j = choose|j: int| 0 <= j < i && #[trigger] labels[j] == labels[i] - 1;
        assert(labels.contains(labels[j]));
        lemma_ids_below_occur(labels, (id - 1) as u32, below);
    }
}

/// Where the ids are handed out in the order of the scan, the ids that
/// occur, in ascending order, are 1, 2, 3 and so on.
proof fn lemma_ids_count_up(labels: Seq<u32>, ids: Seq<u32>, k: int)
    requires
        numbered_in_scan_order(labels),
        strictly_ascending(ids),
        forall|id: u32| label_present(labels, id) <==> ids.contains(id),
        0 <= k < ids.len(),
    ensures
        ids[k] == k + 1,
    decreases k,
{
    assert(ids.contains(ids[k]));
    assert(label_present(labels, ids[k]));
    if k > 0 {
        lemma_ids_count_up(labels, ids, k - 1);
        assert(ids[k - 1] < ids[k]);
    }
    let next = (k + 1) as u32;
    lemma_ids_below_occur(labels, ids[k], next);
    assert(ids.contains(next));
    let j = choose|j: int| 0 <= j < ids.len() && ids[j] == next;
    if j < k {
        if j < k - 1 {
            assert(ids[j] < ids[k - 1]);
        }
    } else if j > k {
        assert(ids[k] < ids[j]);
    }
}

/// Splits a mask into a list of masks with one component each. Neighbours
/// (left, right, above, below) of equal value that is not 0 share a
/// component; in a mask of 0 and one other value these are the connected
/// regions of that value. The blobs come in the order in which a scan by
/// rows first meets their components: blob `k` is that of the id `k + 1`.
/// Every pixel that is not 0 is foreground in the blob of its component
/// alone, and a mask of zeros gives no blobs.
pub fn extract_blobs(image: &GrayImage) -> (blobs: Vec<GrayImage>)
    requires
        image.width() * image.height() < 0x1_0000_0000,
    ensures
        exists|ids: Seq<u32>|
            is_separation(blobs@, mask_labels(image), image.width(), image.height(), ids),
        blobs@.len() == present_labels(mask_labels(image)).len(),
        mask_labels(image).len() == image@.len(),
        forall|i: int| 0 <= i < image@.len() ==> (mask_labels(image)[i] == 0 <==> image@[i] == 0),
        labels_follow_components(
            mask_labels(image),
            image@,
            image.width() as int,
            image.height() as int,
        ),
        numbered_in_scan_order(mask_labels(image)),
        forall|k: int|
            0 <= k < blobs@.len() ==> (#[trigger] blobs@[k]).width() == image.width()
                && blobs@[k].height() == image.height() && blobs@[k]@ == blob_pixels(
                mask_labels(image),
                (k + 1) as u32,
            ),
        forall|i: int|
            0 <= i < image@.len() && image@[i] != 0 ==> 0 < #[trigger] mask_labels(image)[i]
                <= blobs@.len() && blobs@[mask_labels(image)[i] - 1]@[i] == 255,
        (forall|i: int| 0 <= i < image@.len() ==> image@[i] == 0) ==> blobs@.len() == 0,
{
    let labels = label_components(image);
    let blobs = separate_labels(&labels);
    proof {
        let map = mask_labels(image);
        let ids = choose|ids: Seq<u32>|
            is_separation(blobs@, labels@, labels.width(), labels.height(), ids);
        assert forall|k: int| 0 <= k < blobs@.len() implies (#[trigger] blobs@[k]).width()
            == image.width() && blobs@[k].height() == image.height() && blobs@[k]@ == blob_pixels(
            map,
            (k + 1) as u32,
        ) by {
            lemma_ids_count_up(map, ids, k);
        }
        assert forall|i: int| 0 <= i < image@.len() && image@[i] != 0 implies 0 < #[trigger] map[i]
            <= blobs@.len() && blobs@[map[i] - 1]@[i] == 255 by {
            assert(map.contains(map[i]));
            assert(ids.contains(map[i]));
            let k = choose|k: int| 0 <= k < ids.len() && ids[k] == map[i];
            lemma_ids_count_up(map, ids, k);
            assert(blobs@[k]@ == blob_pixels(map, ids[k]));
        }
        if forall|i: int| 0 <= i < image@.len() ==> image@[i] == 0 {
            assert(present_labels(map) =~= Set::<u32>::empty()) by {
                assert forall|id: u32| !label_present(map, id) by {
                    if map.contains(id) {
                        let i = choose|i: int| 0 <= i < map.len() && map[i] == id;
                        assert(image@[i] == 0);
                    }
                }
            }
        }
    }
    blobs
}

} // verus!
