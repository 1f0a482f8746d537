use papier::frame::{can_draw, BACKGROUND};
use papier::picture::Picture;
use papier::pixmap::Pixmap;

fn blank(width: u32, height: u32, scale: u32) -> Pixmap {
    let count = (width * scale * height * scale) as usize;
    Pixmap {
        width,
        height,
        data: Some(vec![0; count]),
        scale,
    }
}

fn picture(width: u32, height: u32) -> Picture {
    let mut pixels = Vec::new();
    for y in 0..height {
        for x in 0..width {
            pixels.push([x as u8, y as u8, (10 * x + y) as u8, 128]);
        }
    }
    Picture {
        width,
        height,
        pixels,
    }
}

#[test]
fn without_a_picture_the_background_is_drawn() {
    let mut pixmap = blank(3, 2, 2);
    pixmap.draw(&None);
    assert_eq!(BACKGROUND, 0x93a7c9);
    assert_eq!(pixmap.data, Some(vec![0x93a7c9; 24]));
}

#[test]
fn colours_are_packed_without_alpha() {
    let mut pixmap = blank(1, 1, 1);
    let source = Some(Picture {
        width: 1,
        height: 1,
        pixels: vec![[0x12, 0x34, 0x56, 0x78]],
    });
    pixmap.draw(&source);
    assert_eq!(pixmap.pixel(0, 0), 0x123456);
    let white = Some(Picture {
        width: 1,
        height: 1,
        pixels: vec![[255, 255, 255, 255]],
    });
    pixmap.draw(&white);
    assert_eq!(pixmap.pixel(0, 0), 0xffffff);
}

#[test]
fn a_picture_of_the_same_size_is_drawn_pixel_by_pixel() {
    let mut pixmap = blank(4, 3, 1);
    pixmap.draw(&Some(picture(4, 3)));
    for y in 0..3 {
        for x in 0..4 {
            assert_eq!(pixmap.pixel(x, y), (x << 16) | (y << 8) | (10 * x + y));
        }
    }
}

#[test]
fn a_larger_buffer_repeats_pixels() {
    let mut pixmap = blank(4, 2, 3);
    pixmap.draw(&Some(picture(4, 2)));
    for y in 0..6 {
        for x in 0..12 {
            let (sx, sy) = (x / 3, y / 3);
            assert_eq!(pixmap.pixel(x, y), (sx << 16) | (sy << 8) | (10 * sx + sy));
        }
    }
}

#[test]
fn samples_are_rounded_down() {
    let mut pixmap = blank(3, 1, 1);
    pixmap.draw(&Some(picture(5, 1)));
    let columns: Vec<u32> = (0..3).map(|x| pixmap.pixel(x, 0) >> 16).collect();
    assert_eq!(columns, vec![0, 1, 3]);
}

#[test]
fn samples_keep_their_order() {
    let mut pixmap = blank(7, 1, 1);
    pixmap.draw(&Some(picture(4, 1)));
    let columns: Vec<u32> = (0..7).map(|x| pixmap.pixel(x, 0) >> 16).collect();
    assert_eq!(columns, vec![0, 0, 1, 1, 2, 2, 3]);
}

#[test]
fn an_empty_buffer_takes_any_picture() {
    let mut pixmap = blank(0, 5, 1);
    pixmap.draw(&Some(picture(4, 1)));
    assert_eq!(pixmap.data, Some(vec![]));
    assert!(can_draw(&Some(picture(0, 0)), 0, 5));
    assert!(!can_draw(&Some(picture(0, 0)), 1, 1));
}

#[test]
fn products_past_32_bits_cannot_be_drawn() {
    let wide = Some(Picture {
        width: 65535,
        height: 1,
        pixels: vec![[0; 4]; 65535],
    });
    assert!(can_draw(&wide, 65538, 1));
    assert!(!can_draw(&wide, 65539, 1));
    assert!(can_draw(&wide, 1, u32::MAX));
    assert!(can_draw(&None, u32::MAX, u32::MAX));
}

#[test]
fn the_bits_above_the_colours_stay_zero() {
    let mut pixmap = blank(8, 8, 1);
    pixmap.draw(&Some(picture(5, 7)));
    for pixel in pixmap.data.unwrap() {
        assert_eq!(pixel >> 24, 0);
    }
}
