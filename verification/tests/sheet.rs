use blob_extractor::alpha_channel::extract;
use blob_extractor::angle::Angle;
use blob_extractor::angle::DeskewResult;
use blob_extractor::buffer::GrayImage;
use blob_extractor::buffer::Image;
use blob_extractor::buffer::MatchMask;
use blob_extractor::buffer::Rgba;
use blob_extractor::buffer::RgbaImage;
use blob_extractor::detection::compute_bounding_box;
use blob_extractor::detection::compute_deskew_angle_for_rectangle;
use blob_extractor::detection::compute_skew_angle_and_rotation_center;
use blob_extractor::detection::SkewDirection;
use blob_extractor::extraction::extract_blobs;
use blob_extractor::extractor::crop_to_blob;
use blob_extractor::extractor::BlobExtractor;
use imageproc::geometric_transformations::Border;
use imageproc::geometric_transformations::Interpolation;
use palette::FromColor;
use palette::Lab;
use palette::Srgb;

const KEY: Rgba = Rgba { r: 0x71, g: 0xAA, b: 0x5D, a: 255 };
const BLACK: Rgba = Rgba { r: 0, g: 0, b: 0, a: 255 };

fn lab(color: Rgba) -> Lab {
    Lab::from_color(Srgb::new(
        color.r as f32 / 255.0,
        color.g as f32 / 255.0,
        color.b as f32 / 255.0,
    ))
}

fn distance(a: Rgba, b: Rgba) -> f32 {
    let (a, b) = (lab(a), lab(b));
    ((a.l - b.l).powi(2) + (a.a - b.a).powi(2) + (a.b - b.b).powi(2)).sqrt()
}

fn matches_of(image: &RgbaImage, key: Rgba, fuzz: f32) -> MatchMask {
    let flags = image.pixels().iter().map(|p| distance(*p, key) <= fuzz).collect();
    Image::from_pixels(image.width(), image.height(), flags).unwrap()
}

fn to_gray_buffer(image: &GrayImage) -> image::GrayImage {
    image::GrayImage::from_raw(image.width(), image.height(), image.pixels().clone()).unwrap()
}

fn from_gray_buffer(image: &image::GrayImage) -> GrayImage {
    Image::from_pixels(image.width(), image.height(), image.as_raw().clone()).unwrap()
}

fn sheet_with_turned_square(turn_degrees: f64) -> RgbaImage {
    let mut sheet: RgbaImage = Image::new(200, 200, KEY);
    let (sin, cos) = turn_degrees.to_radians().sin_cos();
    for y in 0..200u32 {
        for x in 0..200u32 {
            let (dx, dy) = (x as f64 - 100.0, y as f64 - 100.0);
            let u = dx * cos + dy * sin;
            let v = -dx * sin + dy * cos;
            if u.abs() <= 50.0 && v.abs() <= 50.0 {
                sheet.put_pixel(x, y, BLACK);
            }
        }
    }
    sheet
}

#[test]
fn turned_square_is_isolated_and_straightened() {
    let extractor = BlobExtractor::new(KEY, 0, 0, 40, 4, 10, 150, false);
    let mut sheet = sheet_with_turned_square(5.0);

    extractor.draw_chroma_key_border(&mut sheet);
    let matches = matches_of(&sheet, KEY, 17.0);
    extractor.remove_chroma_key_color_from_image(&mut sheet, &matches);
    assert_eq!(sheet.get_pixel(0, 0), Rgba { r: 0, g: 0, b: 0, a: 0 });
    assert_eq!(sheet.get_pixel(100, 100), BLACK);

    let mask = extract(&sheet);
    let blobs = extract_blobs(&mask);
    assert_eq!(blobs.len(), 1);
    let blob = &blobs[0];
    assert_eq!(blob.pixels(), mask.pixels());

    let edges = imageproc::edges::canny(&to_gray_buffer(blob), 1.0, 1.0);
    let angle = compute_deskew_angle_for_rectangle(&from_gray_buffer(&edges), 40, 4, 10);
    assert!(angle.microdegrees >= -6_000_000 && angle.microdegrees <= -4_000_000);

    // The leftmost corner lies low, so the bottom triangle has the shorter
    // vertical leg.
    let hull = compute_skew_angle_and_rotation_center(blob);
    let triangle = hull.triangle.unwrap();
    assert_eq!(triangle.direction, SkewDirection::Left);
    assert!(triangle.vertical < triangle.horizontal);
    assert!(triangle.vertical.abs_diff(9) <= 2 && triangle.horizontal.abs_diff(100) <= 2);
    assert!(hull.center.x.abs_diff(100) <= 1 && hull.center.y.abs_diff(100) <= 1);

    let bounding_box = compute_bounding_box(blob);
    let estimate = extractor.estimate_deskew(blob, &from_gray_buffer(&edges)).unwrap();
    assert_eq!(estimate.angle(), angle);
    assert!(estimate.center().x.abs_diff(100) <= 1 && estimate.center().y.abs_diff(100) <= 1);
    assert!(bounding_box.width() > 104 && bounding_box.height() > 104);

    let theta = (estimate.angle().microdegrees as f32 / 1_000_000.0).to_radians();
    let center = (estimate.center().x as f32, estimate.center().y as f32);
    let turned_mask = imageproc::geometric_transformations::rotate(
        &to_gray_buffer(blob),
        center,
        theta,
        Interpolation::Bicubic,
        Border::Constant(image::Luma([0u8])),
    );
    let raw: Vec<u8> = sheet.pixels().iter().flat_map(|p| [p.r, p.g, p.b, p.a]).collect();
    let turned_color = imageproc::geometric_transformations::rotate(
        &image::RgbaImage::from_raw(200, 200, raw).unwrap(),
        center,
        theta,
        Interpolation::Bicubic,
        Border::Constant(image::Rgba([0u8, 0, 0, 0])),
    );
    let pixels = turned_color.pixels().map(|p| Rgba { r: p[0], g: p[1], b: p[2], a: p[3] }).collect();
    let mut color: RgbaImage = Image::from_pixels(200, 200, pixels).unwrap();
    // Only pixels that are mostly inside the turned square count as its mask.
    let firm: Vec<u8> = turned_mask.as_raw().iter().map(|v| if *v >= 128 { 255 } else { 0 }).collect();
    let firm_mask: GrayImage = Image::from_pixels(200, 200, firm).unwrap();
    let cropped = crop_to_blob(&mut color, &firm_mask).unwrap();
    assert!(cropped.bounding_box.width().abs_diff(100) <= 2);
    assert!(cropped.bounding_box.height().abs_diff(100) <= 2);
    assert!(cropped.bounding_box.left.abs_diff(50) <= 2);
    assert!(cropped.bounding_box.top.abs_diff(50) <= 2);
    assert_eq!(cropped.color.width(), cropped.bounding_box.width());
    assert_eq!(cropped.color.height(), cropped.bounding_box.height());
    assert_eq!(cropped.mask.width(), cropped.bounding_box.width());
}

#[test]
fn square_turned_the_other_way_leans_the_other_way() {
    let mut sheet = sheet_with_turned_square(-5.0);
    let extractor = BlobExtractor::new(KEY, 0, 0, 40, 4, 10, 150, false);
    extractor.draw_chroma_key_border(&mut sheet);
    let matches = matches_of(&sheet, KEY, 17.0);
    extractor.remove_chroma_key_color_from_image(&mut sheet, &matches);
    let blobs = extract_blobs(&extract(&sheet));
    assert_eq!(blobs.len(), 1);
    let edges = imageproc::edges::canny(&to_gray_buffer(&blobs[0]), 1.0, 1.0);
    let angle = compute_deskew_angle_for_rectangle(&from_gray_buffer(&edges), 40, 4, 10);
    assert!(angle.microdegrees >= 4_000_000 && angle.microdegrees <= 6_000_000);
    let hull = compute_skew_angle_and_rotation_center(&blobs[0]);
    assert_eq!(hull.triangle.unwrap().direction, SkewDirection::Right);
    let clamped = DeskewResult::new(Angle { microdegrees: angle.microdegrees * 3 }, hull.center);
    assert_eq!(clamped.angle(), Angle { microdegrees: 0 });
}

#[test]
fn key_color_matches_itself_and_not_black() {
    assert_eq!(distance(KEY, KEY), 0.0);
    assert_eq!(distance(KEY, BLACK), distance(BLACK, KEY));
    assert!(distance(KEY, BLACK) > 17.0);
}
