use blob_extractor::alpha_channel::extract;
use blob_extractor::alpha_channel::replace;
use blob_extractor::buffer::GrayImage;
use blob_extractor::buffer::Image;
use blob_extractor::buffer::MatchMask;
use blob_extractor::buffer::Rgba;
use blob_extractor::buffer::RgbaImage;
use blob_extractor::drawing::draw_border;
use blob_extractor::drawing::draw_hollow_rect;
use blob_extractor::drawing::flood_fill;
use blob_extractor::extractor::BlobExtractor;

const KEY: Rgba = Rgba { r: 0x71, g: 0xAA, b: 0x5D, a: 255 };
const WHITE: Rgba = Rgba { r: 255, g: 255, b: 255, a: 255 };
const CLEAR: Rgba = Rgba { r: 0, g: 0, b: 0, a: 0 };

fn mask_from_rows(rows: &[&str]) -> MatchMask {
    let height = rows.len() as u32;
    let width = rows[0].len() as u32;
    let mut flags = Vec::new();
    for row in rows {
        for c in row.chars() {
            flags.push(c == '#');
        }
    }
    Image::from_pixels(width, height, flags).unwrap()
}

fn filled_rows(image: &RgbaImage, replacement: Rgba) -> Vec<String> {
    let mut rows = Vec::new();
    for y in 0..image.height() {
        let mut row = String::new();
        for x in 0..image.width() {
            row.push(if image.get_pixel(x, y) == replacement { '#' } else { '.' });
        }
        rows.push(row);
    }
    rows
}

#[test]
fn image_new_and_pixels() {
    let mut image: RgbaImage = Image::new(3, 2, WHITE);
    assert_eq!(image.width(), 3);
    assert_eq!(image.height(), 2);
    assert_eq!(image.pixels().len(), 6);
    image.put_pixel(2, 1, KEY);
    assert_eq!(image.get_pixel(2, 1), KEY);
    assert_eq!(image.get_pixel(1, 1), WHITE);
    assert_eq!(image.offset(2, 1), 5);
    assert_eq!(image.into_pixels()[5], KEY);
}

#[test]
fn image_from_pixels_checks_the_count() {
    assert!(Image::from_pixels(2, 2, vec![0u8; 4]).is_some());
    assert!(Image::from_pixels(2, 2, vec![0u8; 3]).is_none());
    assert!(Image::from_pixels(0, 5, Vec::<u8>::new()).is_some());
    assert!(Image::from_pixels(0, 5, vec![1u8]).is_none());
}

#[test]
fn border_of_thickness_one() {
    let mut image: RgbaImage = Image::new(5, 4, WHITE);
    draw_border(&mut image, KEY, 0, 0, 5, 4, 1);
    assert_eq!(filled_rows(&image, KEY), vec!["#####", "#...#", "#...#", "#####"]);
}

#[test]
fn border_of_thickness_two_inside_the_image() {
    let mut image: RgbaImage = Image::new(8, 7, WHITE);
    draw_border(&mut image, KEY, 1, 1, 6, 5, 2);
    assert_eq!(
        filled_rows(&image, KEY),
        vec![
            "........", ".######.", ".######.", ".##..##.", ".######.", ".######.", "........"
        ]
    );
}

#[test]
fn border_thicker_than_the_rectangle_fills_it() {
    let mut image: RgbaImage = Image::new(5, 5, WHITE);
    draw_border(&mut image, KEY, 1, 1, 3, 3, 100);
    assert_eq!(filled_rows(&image, KEY), vec![".....", ".###.", ".###.", ".###.", "....."]);
}

#[test]
fn border_is_cut_at_the_image() {
    let mut image: RgbaImage = Image::new(4, 4, WHITE);
    draw_border(&mut image, KEY, -1, -1, 4, 4, 1);
    assert_eq!(filled_rows(&image, KEY), vec!["..#.", "..#.", "###.", "...."]);
}

#[test]
fn border_without_area_or_thickness_draws_nothing() {
    let mut image: RgbaImage = Image::new(3, 3, WHITE);
    draw_border(&mut image, KEY, 0, 0, 0, 3, 1);
    draw_border(&mut image, KEY, 0, 0, 3, 0, 1);
    draw_border(&mut image, KEY, 0, 0, 3, 3, 0);
    assert_eq!(filled_rows(&image, KEY), vec!["...", "...", "..."]);
}

#[test]
fn hollow_rectangle_outline() {
    let mut image: RgbaImage = Image::new(5, 5, WHITE);
    draw_hollow_rect(&mut image, 1, 2, 3, 2, KEY);
    assert_eq!(filled_rows(&image, KEY), vec![".....", ".....", ".###.", ".###.", "....."]);
    let mut other: RgbaImage = Image::new(5, 5, WHITE);
    draw_hollow_rect(&mut other, 0, 0, 5, 5, KEY);
    assert_eq!(filled_rows(&other, KEY), vec!["#####", "#...#", "#...#", "#...#", "#####"]);
}

#[test]
fn extractor_draws_a_one_pixel_border_in_the_key_color() {
    let extractor = BlobExtractor::new(KEY, 10, 6, 225, 4, 10, 150, false);
    let mut image: RgbaImage = Image::new(4, 3, WHITE);
    extractor.draw_chroma_key_border(&mut image);
    assert_eq!(filled_rows(&image, KEY), vec!["####", "#..#", "####"]);
}

#[test]
fn flood_fills_what_is_connected_to_the_seed() {
    let matches = mask_from_rows(&["##.##", "#..#.", "###.#", ".#..#"]);
    let mut image: RgbaImage = Image::new(5, 4, WHITE);
    flood_fill(&mut image, 0, 0, &matches, CLEAR);
    assert_eq!(filled_rows(&image, CLEAR), vec!["##...", "#....", "###..", ".#..."]);
    assert_eq!(image.get_pixel(3, 0), WHITE);
    assert_eq!(image.get_pixel(4, 3), WHITE);
}

#[test]
fn flood_does_not_step_diagonally() {
    let matches = mask_from_rows(&["#..", ".#.", "..#"]);
    let mut image: RgbaImage = Image::new(3, 3, WHITE);
    flood_fill(&mut image, 1, 1, &matches, CLEAR);
    assert_eq!(filled_rows(&image, CLEAR), vec!["...", ".#.", "..."]);
}

#[test]
fn flood_from_a_seed_that_does_not_match_changes_nothing() {
    let matches = mask_from_rows(&[".##", "###", "###"]);
    let mut image: RgbaImage = Image::new(3, 3, WHITE);
    flood_fill(&mut image, 0, 0, &matches, CLEAR);
    assert_eq!(filled_rows(&image, CLEAR), vec!["...", "...", "..."]);
}

#[test]
fn flood_from_outside_the_image_changes_nothing() {
    let matches = mask_from_rows(&["###", "###"]);
    for (x, y) in [(-1, 0), (0, -1), (3, 0), (0, 2), (i32::MIN, i32::MAX)] {
        let mut image: RgbaImage = Image::new(3, 2, WHITE);
        flood_fill(&mut image, x, y, &matches, CLEAR);
        assert_eq!(filled_rows(&image, CLEAR), vec!["...", "..."]);
    }
}

#[test]
fn flood_keeps_what_a_boundary_cuts_off() {
    // The ring of matching pixels around the sheet is flooded; the item is
    // bounded by pixels that do not match, so its matching inside stays.
    let matches = mask_from_rows(&[
        "#######", "#.....#", "#.###.#", "#.###.#", "#.....#", "#######",
    ]);
    let mut image: RgbaImage = Image::new(7, 6, WHITE);
    flood_fill(&mut image, 0, 0, &matches, CLEAR);
    assert_eq!(
        filled_rows(&image, CLEAR),
        vec!["#######", "#.....#", "#.....#", "#.....#", "#.....#", "#######"]
    );
    assert_eq!(image.get_pixel(3, 2), WHITE);
}

#[test]
fn flood_twice_changes_nothing_more() {
    let first = mask_from_rows(&["####", "#..#", "#.##", "####"]);
    let mut image: RgbaImage = Image::new(4, 4, WHITE);
    flood_fill(&mut image, 0, 0, &first, CLEAR);
    let once = image.pixels().clone();
    // The flooded pixels now hold the replacement, which does not match.
    let second = mask_from_rows(&["....", "....", "....", "...."]);
    flood_fill(&mut image, 0, 0, &second, CLEAR);
    assert_eq!(image.pixels(), &once);
    // The same holds where the replacement itself matches the key.
    flood_fill(&mut image, 0, 0, &first, CLEAR);
    assert_eq!(image.pixels(), &once);
}

#[test]
fn flood_fills_a_large_image() {
    let matches: MatchMask = Image::new(300, 200, true);
    let mut image: RgbaImage = Image::new(300, 200, WHITE);
    flood_fill(&mut image, 299, 199, &matches, CLEAR);
    assert!(image.pixels().iter().all(|p| *p == CLEAR));
}

#[test]
fn extractor_floods_from_the_top_left_corner() {
    let extractor = BlobExtractor::new(KEY, 10, 6, 225, 4, 10, 150, false);
    let matches = mask_from_rows(&["###", "#.#", "###"]);
    let mut image: RgbaImage = Image::new(3, 3, KEY);
    image.put_pixel(1, 1, WHITE);
    extractor.remove_chroma_key_color_from_image(&mut image, &matches);
    assert_eq!(filled_rows(&image, CLEAR), vec!["###", "#.#", "###"]);
    assert_eq!(image.get_pixel(1, 1), WHITE);
}

#[test]
fn alpha_plane_is_extracted() {
    let mut image: RgbaImage = Image::new(3, 2, WHITE);
    image.put_pixel(0, 0, Rgba { r: 1, g: 2, b: 3, a: 7 });
    image.put_pixel(2, 1, CLEAR);
    let mask = extract(&image);
    assert_eq!(mask.width(), 3);
    assert_eq!(mask.height(), 2);
    assert_eq!(mask.pixels(), &vec![7, 255, 255, 255, 255, 0]);
}

#[test]
fn alpha_plane_is_replaced_and_colors_stay() {
    let mut image: RgbaImage = Image::new(2, 2, Rgba { r: 10, g: 20, b: 30, a: 40 });
    let mask: GrayImage = Image::from_pixels(2, 2, vec![0, 1, 128, 255]).unwrap();
    replace(&mut image, &mask);
    assert_eq!(image.get_pixel(0, 0), Rgba { r: 10, g: 20, b: 30, a: 0 });
    assert_eq!(image.get_pixel(1, 0), Rgba { r: 10, g: 20, b: 30, a: 1 });
    assert_eq!(image.get_pixel(0, 1), Rgba { r: 10, g: 20, b: 30, a: 128 });
    assert_eq!(image.get_pixel(1, 1), Rgba { r: 10, g: 20, b: 30, a: 255 });
}

#[test]
fn alpha_plane_of_a_larger_mask_is_read_by_coordinate() {
    let mut image: RgbaImage = Image::new(2, 1, WHITE);
    let mask: GrayImage = Image::from_pixels(3, 2, vec![1, 2, 3, 4, 5, 6]).unwrap();
    replace(&mut image, &mask);
    assert_eq!(image.get_pixel(0, 0).a, 1);
    assert_eq!(image.get_pixel(1, 0).a, 2);
}

#[test]
fn alpha_round_trip() {
    let mut source: RgbaImage = Image::new(3, 3, WHITE);
    for y in 0..3 {
        for x in 0..3 {
            source.put_pixel(x, y, Rgba { r: 9, g: 9, b: 9, a: (x * 40 + y * 7) as u8 });
        }
    }
    let mask = extract(&source);
    let mut target: RgbaImage = Image::new(3, 3, Rgba { r: 1, g: 2, b: 3, a: 200 });
    replace(&mut target, &mask);
    for y in 0..3 {
        for x in 0..3 {
            let pixel = target.get_pixel(x, y);
            assert_eq!(pixel.a, source.get_pixel(x, y).a);
            assert_eq!((pixel.r, pixel.g, pixel.b), (1, 2, 3));
        }
    }
    assert_eq!(extract(&target).pixels(), mask.pixels());
}

#[test]
fn border_far_outside_the_image_draws_nothing() {
    let mut image: RgbaImage = Image::new(3, 3, WHITE);
    draw_border(&mut image, KEY, i32::MAX, i32::MAX, u32::MAX, u32::MAX, 2);
    draw_border(&mut image, KEY, i32::MIN, i32::MIN, 10, 10, 2);
    assert_eq!(filled_rows(&image, KEY), vec!["...", "...", "..."]);
    draw_border(&mut image, KEY, i32::MIN, 1, u32::MAX, 1, 7);
    assert_eq!(filled_rows(&image, KEY), vec!["...", "###", "..."]);
}
