use papier::pixmap::{buffer_fits, Pixmap};

fn pixmap(width: u32, height: u32, scale: u32) -> Pixmap {
    let count = (width * scale * height * scale) as usize;
    let data = (0..count as u32).collect();
    Pixmap {
        width,
        height,
        data: Some(data),
        scale,
    }
}

#[test]
fn default_pixmap_is_empty_and_unscaled() {
    let pixmap = Pixmap::default();
    assert_eq!(pixmap.width, 0);
    assert_eq!(pixmap.height, 0);
    assert_eq!(pixmap.scale, 1);
    assert!(pixmap.data.is_none());
    assert_eq!(pixmap.byte_size(), 0);
}

#[test]
fn sizes_follow_the_scale() {
    let pixmap = pixmap(5, 3, 2);
    assert_eq!(pixmap.buffer_width(), 10);
    assert_eq!(pixmap.buffer_height(), 6);
    assert_eq!(pixmap.buffer_stride(), 40);
    assert_eq!(pixmap.byte_size(), 240);
}

#[test]
fn largest_describable_buffer() {
    assert!(buffer_fits(0x3fff_ffff, 1, 1));
    assert!(!buffer_fits(0x4000_0000, 1, 1));
    assert!(buffer_fits(1, 0x3fff_ffff, 1));
    assert!(!buffer_fits(1, 0x4000_0000, 1));
    assert!(buffer_fits(32767, 32767, 1));
    assert!(!buffer_fits(32768, 32768, 1));
    assert!(!buffer_fits(u32::MAX, u32::MAX, u32::MAX));
    assert!(buffer_fits(3840, 2160, 2));
}

#[test]
fn there_is_no_buffer_without_pixels() {
    assert!(!buffer_fits(0, 0, 1));
    assert!(!buffer_fits(0, 5, 1));
    assert!(!buffer_fits(5, 0, 1));
    assert!(!buffer_fits(5, 5, 0));
    assert!(buffer_fits(1, 1, 1));
}

#[test]
fn pixels_are_stored_row_by_row() {
    let pixmap = pixmap(4, 3, 1);
    assert_eq!(pixmap.pixel(0, 0), 0);
    assert_eq!(pixmap.pixel(3, 0), 3);
    assert_eq!(pixmap.pixel(0, 1), 4);
    assert_eq!(pixmap.pixel(3, 2), 11);
    // A column past the end of a row is one of the next row.
    assert_eq!(pixmap.pixel(4, 0), pixmap.pixel(0, 1));
}

#[test]
fn a_written_pixel_is_read_back_and_no_other_changes() {
    let mut pixmap = pixmap(4, 3, 1);
    let before = pixmap.clone();
    *pixmap.pixel_mut(2, 1) = 77;
    for y in 0..3 {
        for x in 0..4 {
            let expected = if (x, y) == (2, 1) {
                77
            } else {
                before.pixel(x, y)
            };
            assert_eq!(pixmap.pixel(x, y), expected);
        }
    }
}

#[test]
fn all_pixels_can_be_changed() {
    let mut pixmap = pixmap(2, 2, 1);
    for pixel in pixmap.pixels_mut() {
        *pixel = 9;
    }
    assert_eq!(pixmap.data, Some(vec![9, 9, 9, 9]));
}

#[test]
fn unmapping_gives_the_size_of_the_memory() {
    let pixmap = pixmap(5, 3, 2);
    assert_eq!(pixmap.unmap(), Some(240));
    assert!(pixmap.data.is_some());
    assert_eq!(Pixmap::default().unmap(), None);
}

#[test]
fn every_pixel_lies_in_the_memory_of_the_buffer() {
    let pixmap = pixmap(5, 3, 2);
    for y in 0..pixmap.buffer_height() {
        for x in 0..pixmap.buffer_width() {
            let byte = y * pixmap.buffer_stride() + 4 * x;
            assert_eq!(byte / 4, pixmap.pixel(x, y));
            assert!(byte + 4 <= pixmap.byte_size());
        }
    }
}
