use blob_extractor::buffer::GrayImage;
use blob_extractor::buffer::Image;
use blob_extractor::buffer::Rgba;
use blob_extractor::buffer::RgbaImage;
use blob_extractor::extractor::BlobExtractor;

fn covers_all(width: u32, height: u32, radius: u8) -> bool {
    radius == 255 || (radius as u32) >= width + height
}

fn near(mask: &[u8], width: u32, height: u32, x: u32, y: u32, radius: u8, zero: bool) -> bool {
    for qy in 0..height {
        for qx in 0..width {
            let value = mask[(qy * width + qx) as usize];
            let distance = x.abs_diff(qx) + y.abs_diff(qy);
            if (value == 0) == zero && distance <= radius as u32 {
                return true;
            }
        }
    }
    false
}

fn eroded(mask: &[u8], width: u32, height: u32, radius: u8) -> Vec<u8> {
    let mut out = Vec::new();
    for y in 0..height {
        for x in 0..width {
            let black = covers_all(width, height, radius)
                || near(mask, width, height, x, y, radius, true);
            out.push(if black { 0 } else { 255 });
        }
    }
    out
}

fn dilated(mask: &[u8], width: u32, height: u32, radius: u8) -> Vec<u8> {
    let mut out = Vec::new();
    for y in 0..height {
        for x in 0..width {
            let white = covers_all(width, height, radius)
                || near(mask, width, height, x, y, radius, false);
            out.push(if white { 255 } else { 0 });
        }
    }
    out
}

fn cleaned_by_the_library(mask: &[u8], width: u32, height: u32, trim: u8, grow: u8) -> Vec<u8> {
    let key = Rgba { r: 0x71, g: 0xAA, b: 0x5D, a: 255 };
    let extractor = BlobExtractor::new(key, trim, grow, 225, 4, 10, 150, false);
    let pixels = mask.iter().map(|a| Rgba { r: 1, g: 2, b: 3, a: *a }).collect();
    let mut image: RgbaImage = Image::from_pixels(width, height, pixels).unwrap();
    let masks = extractor.cleanup_and_extract_image_mask(&mut image);
    assert_eq!(masks.extracted.pixels().as_slice(), mask);
    let cleaned: &GrayImage = &masks.cleaned;
    assert_eq!((cleaned.width(), cleaned.height()), (width, height));
    cleaned.pixels().clone()
}

fn masks_of(width: u32, height: u32) -> Vec<Vec<u8>> {
    let count = (width * height) as usize;
    let mut masks = vec![vec![0u8; count], vec![255u8; count], vec![7u8; count]];
    let mut state: u32 = 12345 + width * 31 + height;
    for density in [1u32, 3, 5, 7] {
        let mut mask = Vec::with_capacity(count);
        for _ in 0..count {
            state = state.wrapping_mul(1_664_525).wrapping_add(1_013_904_223);
            let draw = (state >> 24) % 8;
            mask.push(if draw < density { [255u8, 1, 128, 200][(state >> 16) as usize % 4] } else { 0 });
        }
        masks.push(mask);
    }
    masks
}

const SIZES: [(u32, u32); 8] = [(1, 1), (1, 3), (3, 1), (2, 2), (3, 5), (7, 4), (16, 12), (20, 3)];
const RADII: [u8; 11] = [0, 1, 2, 3, 4, 6, 9, 10, 20, 254, 255];

#[test]
fn erosion_takes_what_is_near_the_background() {
    for (width, height) in SIZES {
        for mask in masks_of(width, height) {
            for radius in RADII {
                let expected = dilated(&eroded(&mask, width, height, radius), width, height, 0);
                assert_eq!(
                    cleaned_by_the_library(&mask, width, height, radius, 0),
                    expected,
                    "erosion of {mask:?} ({width}x{height}) by {radius}"
                );
            }
        }
    }
}

#[test]
fn dilation_adds_what_is_near_the_foreground() {
    for (width, height) in SIZES {
        for mask in masks_of(width, height) {
            for radius in RADII {
                let expected = dilated(&eroded(&mask, width, height, 0), width, height, radius);
                assert_eq!(
                    cleaned_by_the_library(&mask, width, height, 0, radius),
                    expected,
                    "dilation of {mask:?} ({width}x{height}) by {radius}"
                );
            }
        }
    }
}

#[test]
fn erosion_and_dilation_in_turn() {
    for (width, height) in [(7u32, 4u32), (16, 12), (2, 2)] {
        for mask in masks_of(width, height) {
            for (trim, grow) in [(1u8, 1u8), (2, 1), (1, 3), (10, 6), (3, 255)] {
                let expected = dilated(&eroded(&mask, width, height, trim), width, height, grow);
                assert_eq!(cleaned_by_the_library(&mask, width, height, trim, grow), expected);
            }
        }
    }
}

#[test]
fn radius_zero_only_tells_zero_from_the_rest() {
    let mask = [0u8, 1, 128, 255, 0, 9];
    assert_eq!(cleaned_by_the_library(&mask, 3, 2, 0, 0), vec![0, 255, 255, 255, 0, 255]);
}

fn labelled(mask: &[u8], width: u32, height: u32) -> Vec<u32> {
    let mut labels = vec![0u32; mask.len()];
    let mut next = 1;
    for start in 0..mask.len() {
        if mask[start] == 0 || labels[start] != 0 {
            continue;
        }
        labels[start] = next;
        let mut stack = vec![start];
        while let Some(at) = stack.pop() {
            let (x, y) = (at as u32 % width, at as u32 / width);
            let mut around = Vec::new();
            if x > 0 {
                around.push(at - 1);
            }
            if x + 1 < width {
                around.push(at + 1);
            }
            if y > 0 {
                around.push(at - width as usize);
            }
            if y + 1 < height {
                around.push(at + width as usize);
            }
            for other in around {
                if labels[other] == 0 && mask[other] == mask[start] {
                    labels[other] = next;
                    stack.push(other);
                }
            }
        }
        next += 1;
    }
    labels
}

#[test]
fn labels_are_those_of_joined_pixels_in_scan_order() {
    for (width, height) in SIZES {
        for mask in masks_of(width, height) {
            let image: GrayImage = Image::from_pixels(width, height, mask.clone()).unwrap();
            let labels = blob_extractor::extraction::label_components(&image);
            assert_eq!(
                labels.pixels(),
                &labelled(&mask, width, height),
                "labels of {mask:?} ({width}x{height})"
            );
        }
    }
    // Two arms that meet only in the last row are one component.
    let arms: Vec<u8> = vec![5, 0, 5, 5, 0, 5, 5, 5, 5, 0, 0, 7];
    let image: GrayImage = Image::from_pixels(3, 4, arms.clone()).unwrap();
    let labels = blob_extractor::extraction::label_components(&image);
    assert_eq!(labels.pixels(), &labelled(&arms, 3, 4));
    assert_eq!(labels.pixels(), &vec![1, 0, 1, 1, 0, 1, 1, 1, 1, 0, 0, 2]);
}

#[test]
fn blobs_are_those_of_the_labels() {
    for (width, height) in [(3u32, 5u32), (7, 4), (16, 12), (1, 1), (2, 2)] {
        for mask in masks_of(width, height) {
            let image: GrayImage = Image::from_pixels(width, height, mask.clone()).unwrap();
            let blobs = blob_extractor::extraction::extract_blobs(&image);
            let labels = labelled(&mask, width, height);
            let count = labels.iter().copied().max().unwrap_or(0) as usize;
            assert_eq!(blobs.len(), count);
            for (k, blob) in blobs.iter().enumerate() {
                let expected: Vec<u8> =
                    labels.iter().map(|l| if *l as usize == k + 1 { 255 } else { 0 }).collect();
                assert_eq!(blob.pixels(), &expected);
            }
        }
    }
}
