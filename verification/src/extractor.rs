//! The steps of the extraction that do not depend on files or on the
//! perceptual colour distance, with the settings they share.

use vstd::prelude::*;
use crate::alpha_channel::extract;
use crate::alpha_channel::is_alpha_of;
use crate::alpha_channel::is_alpha_replaced;
use crate::alpha_channel::replace;
use crate::angle::clamp_deskew;
use crate::angle::Angle;
use crate::angle::DeskewResult;
use crate::buffer::GrayImage;
use crate::buffer::MatchMask;
use crate::buffer::Rgba;
use crate::buffer::RgbaImage;
use crate::detection::are_line_angles;
use crate::detection::compute_bounding_box;
use crate::detection::compute_center_from_rectangle;
use crate::detection::compute_deskew_angle_for_rectangle;
use crate::detection::deskew_microdegrees;
use crate::detection::has_foreground;
use crate::detection::is_bounding_box;
use crate::dpi::decide_output_dpi;
use crate::dpi::Dpi;
use crate::drawing::border_depth;
use crate::drawing::draw_border;
use crate::drawing::flood_fill;
use crate::drawing::is_flood_fill_of;
use crate::geometry::crop;
use crate::geometry::is_crop_of;
use crate::geometry::rectangle_center;
use crate::geometry::Rect;
use crate::kernels::dilate;
use crate::kernels::dilated_pixels;
use crate::kernels::erode;
use crate::kernels::eroded_pixels;

verus! {

/// The settings of one extraction, as far as the steps of this library use
/// them.
#[derive(Clone, Copy, Debug)]
pub struct BlobExtractor {
    pub chroma_key_color: Rgba,
    pub trim_edges: u8,
    pub grow_edges: u8,
    pub floodfill_color: Rgba,
    pub border_thickness: u32,
    pub min_pixels_touching_line: u32,
    pub max_lines: usize,
    /// The rotation ceiling in whole degrees.
    pub max_blob_rotation: i32,
    pub dpi: u32,
    pub ignore_detected_dpi: bool,
}

/// The mask of a colour image before and after its clean-up.
pub struct CleanedMask {
    /// The alpha plane as it was extracted.
    pub extracted: GrayImage,
    /// The alpha plane after erosion and dilation.
    pub cleaned: GrayImage,
}

/// A blob after rotation, cut down to its bounding box.
pub struct CroppedBlob {
    pub bounding_box: Rect,
    pub mask: GrayImage,
    pub color: RgbaImage,
}

impl BlobExtractor {
    /// The settings for one extraction. Flooded pixels become fully
    /// transparent black, and the border that seeds the flood is one pixel
    /// thick.
    pub fn new(
        chroma_key_color: Rgba,
        trim_edges: u8,
        grow_edges: u8,
        min_pixels_touching_line: u32,
        max_lines: usize,
        max_blob_rotation: i32,
        dpi: u32,
        ignore_detected_dpi: bool,
    ) -> (r: Self)
        ensures
            r.chroma_key_color == chroma_key_color,
            r.trim_edges == trim_edges,
            r.grow_edges == grow_edges,
            r.floodfill_color == (Rgba { r: 0, g: 0, b: 0, a: 0 }),
            r.border_thickness == 1,
            r.min_pixels_touching_line == min_pixels_touching_line,
            r.max_lines == max_lines,
            r.max_blob_rotation == max_blob_rotation,
            r.dpi == dpi,
            r.ignore_detected_dpi == ignore_detected_dpi,
    {
        BlobExtractor {
            chroma_key_color,
            trim_edges,
            grow_edges,
            floodfill_color: Rgba { r: 0, g: 0, b: 0, a: 0 },
            border_thickness: 1,
            min_pixels_touching_line,
            max_lines,
            max_blob_rotation,
            dpi,
            ignore_detected_dpi,
        }
    }

    /// Decides the density of the output images from the density detected
    /// in the input, if any.
    pub fn decide_output_dpi(&self, dpi: Option<Dpi>) -> (r: Dpi)
        ensures
            r == (match dpi {
                Some(found) if !self.ignore_detected_dpi => found,
                _ => Dpi { x: self.dpi, y: self.dpi },
            }),
    {
        decide_output_dpi(dpi, self.ignore_detected_dpi, self.dpi)
    }

    /// First half of the chroma-key removal: draws a border in the key
    /// colour around the whole image, so that a flood from the corner finds
    /// a path of the exact key colour all the way round.
    pub fn draw_chroma_key_border(&self, image: &mut RgbaImage)
        ensures
            final(image).same_size(old(image)),
            forall|px: int, py: int|
                old(image).in_bounds(px, py) ==> #[trigger] final(image).at(px, py) == (if 0
                    <= border_depth(
                    0,
                    0,
                    old(image).width() as int,
                    old(image).height() as int,
                    px,
                    py,
                ) < self.border_thickness {
                    self.chroma_key_color
                } else {
                    old(image).at(px, py)
                }),
    {
        let width = image.width();
        let height = image.height();
        draw_border(image, self.chroma_key_color, 0, 0, width, height, self.border_thickness);
    }

    /// Second half of the chroma-key removal: floods the image from its
    /// top-left corner over the pixels that match the key colour and makes
    /// them transparent.
    pub fn remove_chroma_key_color_from_image(&self, image: &mut RgbaImage, matches: &MatchMask)
        requires
            matches.same_size(old(image)),
        ensures
            is_flood_fill_of(final(image), old(image), matches, (0, 0), self.floodfill_color),
    {
        flood_fill(image, 0, 0, matches, self.floodfill_color);
    }

    /// Cleans up the alpha channel of a colour image: extracts it, erodes it
    /// by `trim_edges` pixels, dilates it by `grow_edges` pixels and puts it
    /// back into the image.
    pub fn cleanup_and_extract_image_mask(&self, image: &mut RgbaImage) -> (r: CleanedMask)
        requires
            old(image).width() + old(image).height() <= u32::MAX,
        ensures
            is_alpha_of(&r.extracted, old(image)),
            r.cleaned.same_size(old(image)),
            r.cleaned@ == dilated_pixels(
                eroded_pixels(
                    r.extracted@,
                    old(image).width(),
                    old(image).height(),
                    self.trim_edges,
                ),
                old(image).width(),
                old(image).height(),
                self.grow_edges,
            ),
            is_alpha_replaced(final(image), old(image), &r.cleaned),
    {
        let extracted = extract(image);
        let eroded = erode(&extracted, self.trim_edges);
        let cleaned = dilate(&eroded, self.grow_edges);
        replace(image, &cleaned);
        CleanedMask { extracted, cleaned }
    }

    /// Estimates how to straighten a blob: the centre of its bounding box
    /// and the angle that the lines of its edge map give, held to ten
    /// degrees. A blob without foreground has nothing to straighten.
    pub fn estimate_deskew(&self, blob: &GrayImage, edges: &GrayImage) -> (r: Option<DeskewResult>)
        requires
            edges.width() * edges.width() + edges.height() * edges.height() <= u32::MAX,
        ensures
            r is Some <==> has_foreground(blob),
            r matches Some(estimate) ==> exists|bounding_box: Rect|
                is_bounding_box(blob, bounding_box) && estimate.center()
                    == #[trigger] rectangle_center(bounding_box),
            r matches Some(estimate) ==> exists|angles: Seq<u32>|
                are_line_angles(angles) && estimate.angle() == clamp_deskew(
                    Angle {
                        microdegrees: #[trigger] deskew_microdegrees(
                            angles,
                            self.max_lines as int,
                            self.max_blob_rotation as int,
                        ) as i32,
                    },
                ),
    {
        let bounding_box = compute_bounding_box(blob);
        if bounding_box.is_degenerate() {
            return None;
        }
        let center = compute_center_from_rectangle(&bounding_box);
        let angle = compute_deskew_angle_for_rectangle(
            edges,
            self.min_pixels_touching_line,
            self.max_lines,
            self.max_blob_rotation,
        );
        Some(DeskewResult::new(angle, center))
    }
}

/// Last step for one blob: the rotated mask becomes the alpha channel of
/// the rotated colour image, and both are cut down to the bounding box of
/// the mask. A mask without foreground gives nothing.
pub fn crop_to_blob(color: &mut RgbaImage, mask: &GrayImage) -> (r: Option<CroppedBlob>)
    requires
        mask.same_size(old(color)),
    ensures
        is_alpha_replaced(final(color), old(color), mask),
        r is Some <==> has_foreground(mask),
        r matches Some(blob) ==> is_bounding_box(mask, blob.bounding_box) && is_crop_of(
            &blob.mask,
            mask,
            blob.bounding_box.left,
            blob.bounding_box.top,
            blob.bounding_box.width(),
            blob.bounding_box.height(),
        ) && is_crop_of(
            &blob.color,
            final(color),
            blob.bounding_box.left,
            blob.bounding_box.top,
            blob.bounding_box.width(),
            blob.bounding_box.height(),
        ),
{
    replace(color, mask);
    let bounding_box = compute_bounding_box(mask);
    if bounding_box.is_degenerate() {
        return None;
    }
    let cut_mask = crop(
        mask,
        bounding_box.left,
        bounding_box.top,
        bounding_box.width(),
        bounding_box.height(),
    );
    let cut_color = crop(
        color,
        bounding_box.left,
        bounding_box.top,
        bounding_box.width(),
        bounding_box.height(),
    );
    Some(CroppedBlob { bounding_box, mask: cut_mask, color: cut_color })
}

} // verus!
