use image::codecs::jpeg::JpegEncoder;
use image::{ExtendedColorType, ImageError};
use papier::picture::{decode_image, to_picture, DecodeError, Picture};
use std::io::Error;

fn jpeg(width: u32, height: u32, colour: [u8; 3]) -> Vec<u8> {
    let raw: Vec<u8> = (0..width * height).flat_map(|_| colour).collect();
    let mut file = Vec::new();
    JpegEncoder::new_with_quality(&mut file, 100)
        .encode(&raw, width, height, ExtendedColorType::Rgb8)
        .unwrap();
    file
}

fn near(a: u8, b: u8) -> bool {
    a.abs_diff(b) <= 3
}

/// The file without its segments of the kind `marker`.
fn without(file: &[u8], marker: u8) -> Vec<u8> {
    let mut kept = file[..2].to_vec();
    let mut place = 2;
    while file[place + 1] != 0xda {
        let length = 2 + usize::from(file[place + 2]) * 256 + usize::from(file[place + 3]);
        if file[place + 1] != marker {
            kept.extend_from_slice(&file[place..place + length]);
        }
        place += length;
    }
    kept.extend_from_slice(&file[place..]);
    kept
}

#[test]
fn a_jpeg_file_is_a_picture() {
    let picture = decode_image(&jpeg(20, 11, [200, 100, 50])).unwrap();
    assert_eq!((picture.width, picture.height), (20, 11));
    assert_eq!(picture.pixels.len(), 220);
    for pixel in &picture.pixels {
        assert!(near(pixel[0], 200) && near(pixel[1], 100) && near(pixel[2], 50));
        assert_eq!(pixel[3], 255);
    }
}

#[test]
fn a_grey_jpeg_file_is_a_picture() {
    let mut file = Vec::new();
    JpegEncoder::new_with_quality(&mut file, 100)
        .encode(&[90; 64], 8, 8, ExtendedColorType::L8)
        .unwrap();
    let picture = decode_image(&file).unwrap();
    assert_eq!((picture.width, picture.height), (8, 8));
    let pixel = picture.get_pixel(3, 5);
    assert!(near(pixel[0], 90) && pixel[0] == pixel[1] && pixel[1] == pixel[2]);
    assert_eq!(pixel[3], 255);
}

#[test]
fn rows_and_columns_are_not_swapped() {
    let mut raw = Vec::new();
    for y in 0..16 {
        for x in 0..32 {
            raw.extend_from_slice(&[if x < 16 { 255 } else { 0 }, 0, if y < 8 { 255 } else { 0 }]);
        }
    }
    let mut file = Vec::new();
    JpegEncoder::new_with_quality(&mut file, 100)
        .encode(&raw, 32, 16, ExtendedColorType::Rgb8)
        .unwrap();
    let picture = decode_image(&file).unwrap();
    assert_eq!((picture.width, picture.height), (32, 16));
    assert!(picture.get_pixel(2, 2)[0] > 200 && picture.get_pixel(2, 2)[2] > 200);
    assert!(picture.get_pixel(29, 2)[0] < 60 && picture.get_pixel(29, 2)[2] > 200);
    assert!(picture.get_pixel(2, 13)[0] > 200 && picture.get_pixel(2, 13)[2] < 60);
}

#[test]
fn what_has_no_header_is_no_picture() {
    assert_eq!(decode_image(&[]), Err(DecodeError::Header));
    assert_eq!(decode_image(b"<html></html>"), Err(DecodeError::Header));
    assert_eq!(DecodeError::Header.message(), "Failed to create decoder");
}

#[test]
fn what_has_only_a_header_is_no_picture() {
    let file = without(&jpeg(16, 16, [1, 2, 3]), 0xc4);
    assert_eq!(decode_image(&file), Err(DecodeError::Pixels));
    assert_eq!(DecodeError::Pixels.message(), "Failed to decode image");
}

#[test]
fn a_file_is_read_as_the_same_picture_each_time() {
    let file = jpeg(9, 5, [10, 20, 30]);
    let first = decode_image(&file).unwrap();
    assert_eq!(first.pixels.len(), 45);
    assert_eq!(decode_image(&file), Ok(first));
}

#[test]
fn what_the_decoder_came_to_is_a_picture_or_an_error() {
    let error = || ImageError::IoError(Error::other("damaged"));
    assert_eq!(to_picture(Err(error())), Err(DecodeError::Header));
    assert_eq!(to_picture(Ok(Err(error()))), Err(DecodeError::Pixels));
    assert_eq!(
        to_picture(Ok(Ok((1, 2, vec![[1, 2, 3, 4], [5, 6, 7, 8]])))),
        Ok(Picture {
            width: 1,
            height: 2,
            pixels: vec![[1, 2, 3, 4], [5, 6, 7, 8]],
        })
    );
}

#[test]
fn a_damaged_file_is_a_picture_or_an_error() {
    let raw: Vec<u8> = (0..24 * 16 * 3).map(|n| (n * n % 251) as u8).collect();
    let mut file = Vec::new();
    JpegEncoder::new(&mut file)
        .encode(&raw, 24, 16, ExtendedColorType::Rgb8)
        .unwrap();
    // The size is left as it is.
    let frame = (0..file.len()).find(|i| file[*i..].starts_with(&[0xff, 0xc0]));
    let size = frame.unwrap() + 5..frame.unwrap() + 9;
    for place in (0..file.len()).filter(|i| !size.contains(i)) {
        for damage in [0, 1, 0x7f, 0xd9, 0xff] {
            let mut damaged = file.clone();
            damaged[place] = damage;
            if let Ok(picture) = decode_image(&damaged) {
                assert_eq!((picture.width, picture.height), (24, 16));
            }
        }
        if let Ok(picture) = decode_image(&file[..place]) {
            assert_eq!((picture.width, picture.height), (24, 16));
        }
    }
}

#[test]
fn pixels_of_a_picture_are_found_by_column_and_row() {
    let picture = Picture {
        width: 2,
        height: 3,
        pixels: (0..6).map(|n| [n, 0, 0, 255]).collect(),
    };
    assert_eq!(picture.get_pixel(0, 0)[0], 0);
    assert_eq!(picture.get_pixel(1, 0)[0], 1);
    assert_eq!(picture.get_pixel(0, 2)[0], 4);
    assert_eq!(picture.get_pixel(1, 2)[0], 5);
}
