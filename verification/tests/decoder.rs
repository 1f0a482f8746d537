use papier::decoder::can_read;
use papier::picture::{decode_image, DecodeError};

const BASELINE: u8 = 0xc0;
const PROGRESSIVE: u8 = 0xc2;

/// A segment: its marker, its length and what that covers.
fn segment(code: u8, content: &[u8]) -> Vec<u8> {
    let length = content.len() + 2;
    let mut bytes = vec![0xff, code, (length / 256) as u8, (length % 256) as u8];
    bytes.extend_from_slice(content);
    bytes
}

/// A frame of 70 by 40 pixels. Each component is given by its sampling factors.
fn frame(code: u8, factors: &[u8]) -> Vec<u8> {
    frame_of(code, 70, 40, factors)
}

/// A frame. Each component is given by its sampling factors.
fn frame_of(code: u8, width: u16, height: u16, factors: &[u8]) -> Vec<u8> {
    let [high, low] = height.to_be_bytes();
    let mut content = vec![8, high, low];
    content.extend_from_slice(&width.to_be_bytes());
    content.push(factors.len() as u8);
    for (i, factor) in factors.iter().enumerate() {
        content.extend_from_slice(&[i as u8 + 1, *factor, 0]);
    }
    segment(code, &content)
}

fn adobe(transform: u8) -> Vec<u8> {
    let mut content = b"Adobe".to_vec();
    content.extend_from_slice(&[0, 100, 0, 0, 0, 0, transform]);
    segment(0xee, &content)
}

/// One quantization table, all ones.
fn quantizers() -> Vec<u8> {
    quantizers_of(1)
}

/// One quantization table, all with this quantizer.
fn quantizers_of(quantizer: u16) -> Vec<u8> {
    let mut content = Vec::new();
    if quantizer < 256 {
        content.push(0);
        content.extend_from_slice(&[quantizer as u8; 64]);
    } else {
        content.push(0x10);
        for _ in 0..64 {
            content.extend_from_slice(&quantizer.to_be_bytes());
        }
    }
    segment(0xdb, &content)
}

/// A table for the codes of the kind `kind`: one code, for the symbol zero.
fn codes(kind: u8) -> Vec<u8> {
    codes_of(kind, 0)
}

/// A table for the codes of the kind `kind`: one code, for this symbol.
fn codes_of(kind: u8, symbol: u8) -> Vec<u8> {
    let mut content = vec![kind, 1];
    content.extend_from_slice(&[0; 15]);
    content.push(symbol);
    segment(0xc4, &content)
}

/// The start of a scan of these components, with all coefficients.
fn scan(components: &[u8]) -> Vec<u8> {
    scan_of(components, 0, 63)
}

/// The start of a scan of these components, with the coefficients `first` to `last`.
fn scan_of(components: &[u8], first: u8, last: u8) -> Vec<u8> {
    let mut content = vec![components.len() as u8];
    for component in components {
        content.extend_from_slice(&[*component, 0]);
    }
    content.extend_from_slice(&[first, last, 0]);
    segment(0xda, &content)
}

fn file(parts: &[Vec<u8>]) -> Vec<u8> {
    let mut bytes = vec![0xff, 0xd8];
    for part in parts {
        bytes.extend_from_slice(part);
    }
    bytes
}

#[test]
fn what_has_no_scan_is_left_to_the_decoder() {
    assert!(can_read(&[]));
    assert!(can_read(b"<html></html>"));
    assert!(can_read(&[0xff, 0xd8]));
    assert!(can_read(&[0xff, 0xd8, 0xff]));
    // No scan, no frame, the end before the scan, and a length past the end.
    let narrow = frame(BASELINE, &[0x11, 0x21]);
    assert!(can_read(&file(&[narrow.clone()])));
    assert!(can_read(&file(&[scan(&[1])])));
    assert!(can_read(&file(&[
        narrow.clone(),
        vec![0xff, 0xd9],
        scan(&[1])
    ])));
    assert!(can_read(&file(&[
        narrow.clone(),
        vec![0xff, 0xfe, 0xff, 0xff],
        scan(&[1])
    ])));
    // Without the marker at the start of the file.
    assert!(can_read(&file(&[narrow, scan(&[1])])[1..]));
}

#[test]
fn there_is_room_for_the_blocks() {
    for code in [BASELINE, 0xc1, PROGRESSIVE] {
        for factors in [
            &[0x11][..],
            &[0x22],
            &[0x11, 0x11, 0x11],
            &[0x21, 0x11, 0x11],
            &[0x22, 0x11, 0x21],
            &[0x11, 0x12, 0x11],
            &[0x22, 0x11, 0x11, 0x22],
        ] {
            assert!(can_read(&file(&[frame(code, factors), scan(&[1])])));
        }
        for factors in [
            &[0x11, 0x21][..],
            &[0x11, 0x21, 0x11],
            &[0x22, 0x11, 0x41],
            &[0x11, 0x11, 0x11, 0x21],
        ] {
            // Where all components are in one scan, and where the picture is
            // progressive, the decoder sees that there is no room.
            let apart = file(&[frame(code, factors), scan(&[1])]);
            assert_eq!(can_read(&apart), code == PROGRESSIVE);
            let components: Vec<u8> = (1..=factors.len() as u8).collect();
            let together = file(&[frame(code, factors), scan(&components)]);
            assert!(can_read(&together));
        }
    }
}

#[test]
fn whether_there_is_room_depends_on_the_size() {
    let apart = |width, height, factors: &[u8]| {
        can_read(&file(&[frame_of(BASELINE, width, height, factors), scan(&[1])]))
    };
    // Up to eight columns, the first component has one block in a row either way.
    assert!(apart(8, 8, &[0x11, 0x21, 0x11]));
    assert!(!apart(9, 8, &[0x11, 0x21, 0x11]));
    // Two rows of one block take the room of one row of two.
    assert!(apart(16, 16, &[0x11, 0x21, 0x11]));
    assert!(!apart(16, 24, &[0x11, 0x21, 0x11]));
    assert!(apart(16, 8, &[0x12, 0x21, 0x11]));
}

#[test]
fn there_is_room_to_spread_a_component() {
    for code in [BASELINE, PROGRESSIVE] {
        let read = |width, height, factors: &[u8]| {
            can_read(&file(&[frame_of(code, width, height, factors), scan(&[1])]))
        };
        assert!(read(8, 8, &[0x22, 0x11, 0x11]));
        assert!(!read(8, 8, &[0x11, 0x22, 0x11]));
        assert!(!read(8, 8, &[0x12, 0x21, 0x11]));
        assert!(read(8, 8, &[0x12, 0x22, 0x12]));
        assert!(read(8, 8, &[0x11, 0x24, 0x11]));
    }
    let whole = file(&[frame_of(BASELINE, 8, 8, &[0x11, 0x22]), scan(&[1, 2])]);
    assert!(can_read(&whole));
}

#[test]
fn a_narrow_picture_whose_first_component_is_not_the_widest_is_read() {
    let narrow = file(&[
        quantizers(),
        codes(0x00),
        frame_of(PROGRESSIVE, 8, 8, &[0x11, 0x21, 0x11]),
        scan_of(&[1, 2, 3], 0, 0),
        vec![0],
        vec![0xff, 0xd9],
    ]);
    let picture = decode_image(&narrow).unwrap();
    assert_eq!((picture.width, picture.height), (8, 8));
}

#[test]
fn the_sides_of_a_sampled_grey_picture_can_be_rounded_up() {
    let read = |code, width, height, factor: u8| {
        can_read(&file(&[frame_of(code, width, height, &[factor]), scan(&[1])]))
    };
    assert!(read(BASELINE, 65528, 8, 0x22));
    assert!(!read(BASELINE, 65529, 8, 0x22));
    assert!(!read(BASELINE, 65535, 8, 0x12));
    assert!(read(BASELINE, 8, 65528, 0x21));
    assert!(!read(BASELINE, 8, 65529, 0x21));
    assert!(!read(0xc1, 8, 65535, 0x41));
    assert!(read(BASELINE, 65535, 8, 0x11));
    assert!(read(PROGRESSIVE, 65535, 8, 0x22));
    // Said not to be grey.
    assert!(can_read(&file(&[
        frame_of(BASELINE, 65535, 8, &[0x22]),
        adobe(1),
        scan(&[1])
    ])));
}

/// A picture of one component, with differences up to one category.
fn grey(code: u8, width: u16, category: u8, quantizer: u16) -> Vec<u8> {
    file(&[
        quantizers_of(quantizer),
        codes_of(0x00, category),
        codes(0x10),
        frame_of(code, width, 8, &[0x11]),
        scan(&[1]),
        vec![0; 4],
    ])
}

#[test]
fn the_sum_of_the_differences_times_the_quantizer_takes_32_bits() {
    // Two blocks, and one.
    assert!(can_read(&grey(BASELINE, 16, 15, 32768)));
    assert!(!can_read(&grey(BASELINE, 16, 15, 32769)));
    assert!(!can_read(&grey(0xc1, 9, 15, 32769)));
    assert!(can_read(&grey(BASELINE, 8, 15, 65535)));
    assert_eq!(
        decode_image(&grey(BASELINE, 16, 15, 65535)),
        Err(DecodeError::Unsafe)
    );
    // Smaller differences add up to less.
    assert!(can_read(&grey(BASELINE, 16, 14, 65535)));
    assert!(can_read(&grey(BASELINE, 65528, 0, 65535)));
    // The sums in a progressive picture have 16 bits.
    assert!(can_read(&grey(PROGRESSIVE, 65528, 15, 65535)));
}

#[test]
fn each_component_has_its_blocks_and_its_quantizer() {
    let ultra = |quantizer, category| {
        can_read(&file(&[
            quantizers_of(quantizer),
            codes_of(0x00, category),
            frame_of(BASELINE, 3840, 2160, &[0x22, 0x11, 0x11]),
            scan(&[1, 2, 3]),
        ]))
    };
    assert!(ultra(8, 11));
    assert!(!ultra(9, 11));
    assert!(ultra(32, 9));
    assert!(ultra(2, 13));
    // The second component goes by a table of its own.
    let mut two = frame_of(BASELINE, 16, 8, &[0x11, 0x11]);
    two[15] = 1;
    let mut other = quantizers_of(65535);
    other[4] = 0x11;
    for (parts, can) in [
        (vec![quantizers()], true),
        (vec![quantizers(), other.clone()], false),
        (vec![other.clone(), quantizers()], false),
        (vec![quantizers_of(65535), quantizers()], true),
    ] {
        let mut parts = parts;
        parts.extend([codes_of(0x00, 15), two.clone(), scan(&[1, 2])]);
        assert_eq!(can_read(&file(&parts)), can);
    }
}

#[test]
fn differences_add_up_over_all_scans() {
    let read = |after: &[Vec<u8>]| {
        let mut parts = vec![
            quantizers_of(32768),
            codes_of(0x00, 14),
            frame_of(BASELINE, 16, 8, &[0x11]),
            scan(&[1]),
            vec![0; 4],
        ];
        parts.extend_from_slice(after);
        can_read(&file(&parts))
    };
    assert!(read(&[]));
    assert!(read(&[scan(&[1]), vec![0; 4]]));
    assert!(!read(&[scan(&[1]), vec![0; 4], scan(&[1])]));
    // Tables between scans can bring larger differences.
    assert!(!read(&[codes_of(0x00, 15), scan(&[1])]));
    // Restarts bring nothing, nor does what is behind the end.
    assert!(read(&[vec![0xff, 0xd0, 5, 0xff, 0xd1]]));
    assert!(read(&[vec![0xff, 0xd9], codes(0x00), scan(&[1]), scan(&[1])]));
}

#[test]
fn a_frame_of_a_film_has_tables() {
    let film = segment(0xe0, b"AVI1\0 ");
    let read = |quantizer| {
        can_read(&file(&[
            film.clone(),
            quantizers_of(quantizer),
            frame_of(BASELINE, 3840, 2160, &[0x22, 0x11, 0x11]),
            scan(&[1, 2, 3]),
        ]))
    };
    assert!(read(8));
    assert!(!read(9));
}

#[test]
fn tables_that_are_out_of_shape_end_the_reading() {
    let read = |table: Vec<u8>| {
        can_read(&file(&[
            quantizers_of(65535),
            codes_of(0x00, 15),
            table,
            frame_of(BASELINE, 16, 8, &[0x11]),
            scan(&[1]),
        ]))
    };
    assert!(!read(vec![]));
    assert!(!read(quantizers_of(65535)));
    assert!(!read(codes(0x00)));
    assert!(read(segment(0xdb, &[0; 64])));
    assert!(read(segment(0xdb, &[0x20; 193])));
    assert!(read(segment(0xdb, &[4; 65])));
    assert!(read(segment(0xc4, &[0; 16])));
    assert!(read(codes(0x20)));
    assert!(read(codes(0x04)));
    assert!(read(codes_of(0x00, 16)));
    assert!(read(segment(0xc4, &[0x10, 200, 200, 0, 0, 0, 0, 0, 0, 0, 0, 0, 0, 0, 0, 0, 0])));
}

#[test]
fn a_file_on_which_the_decoder_would_panic_is_an_error() {
    // One scan for each component, and the second component is the widest.
    let wide = file(&[
        quantizers(),
        frame(BASELINE, &[0x11, 0x21, 0x11]),
        codes(0x00),
        codes(0x10),
        scan(&[1]),
        vec![0; 8],
        scan(&[2]),
        vec![0; 8],
        scan(&[3]),
        vec![0; 8],
        vec![0xff, 0xd9],
    ]);
    assert_eq!(decode_image(&wide), Err(DecodeError::Unsafe));
    // Two components, said to be four.
    let two = file(&[
        adobe(2),
        quantizers(),
        frame(PROGRESSIVE, &[0x11, 0x11]),
        codes(0x00),
        scan(&[1, 2]),
        vec![0; 8],
        vec![0xff, 0xd9],
    ]);
    assert_eq!(decode_image(&two), Err(DecodeError::Unsafe));
    assert_eq!(DecodeError::Unsafe.message(), "Unsafe image");
}

#[test]
fn few_components_are_no_four() {
    let one = frame(PROGRESSIVE, &[0x11]);
    let two = frame(PROGRESSIVE, &[0x11, 0x11]);
    let three = frame(PROGRESSIVE, &[0x11, 0x11, 0x11]);
    assert!(!can_read(&file(&[adobe(2), two.clone(), scan(&[1])])));
    assert!(!can_read(&file(&[two.clone(), adobe(2), scan(&[1])])));
    assert!(!can_read(&file(&[one.clone(), adobe(2), scan(&[1])])));
    // A frame with one component puts what was said before it right.
    assert!(can_read(&file(&[adobe(2), one, scan(&[1])])));
    assert!(can_read(&file(&[adobe(0), two.clone(), scan(&[1])])));
    assert!(can_read(&file(&[adobe(2), adobe(1), two, scan(&[1])])));
    assert!(can_read(&file(&[adobe(2), three, scan(&[1])])));
    let baseline = frame(BASELINE, &[0x11, 0x11]);
    assert!(can_read(&file(&[adobe(2), baseline, scan(&[1])])));
}

#[test]
fn four_components_are_no_three() {
    let four = frame(PROGRESSIVE, &[0x22, 0x11, 0x11, 0x22]);
    assert!(can_read(&file(&[four.clone(), scan(&[1])])));
    assert!(can_read(&file(&[adobe(1), four.clone(), scan(&[1])])));
    assert!(can_read(&file(&[four.clone(), adobe(2), scan(&[1])])));
    assert!(!can_read(&file(&[four.clone(), adobe(1), scan(&[1])])));
    // Nothing is stretched here.
    let even = frame(PROGRESSIVE, &[0x21, 0x11, 0x11, 0x21]);
    assert!(can_read(&file(&[even, adobe(1), scan(&[1])])));
    // Between two scans.
    assert!(!can_read(&file(&[
        four.clone(),
        scan(&[1]),
        vec![5, 6, 7],
        adobe(1),
        scan(&[2])
    ])));
    assert!(can_read(&file(&[
        four,
        scan(&[1]),
        vec![5, 6, 7],
        adobe(2),
        scan(&[2])
    ])));
    let baseline = frame(BASELINE, &[0x22, 0x11, 0x11, 0x22]);
    assert!(can_read(&file(&[baseline, scan(&[1]), adobe(1), scan(&[2])])));
}

#[test]
fn what_is_no_segment_of_the_picture_says_nothing() {
    let start = [
        quantizers(),
        codes(0x00),
        frame(PROGRESSIVE, &[0x22, 0x11, 0x11, 0x22]),
        scan_of(&[1, 2, 3, 4], 0, 0),
        vec![0],
    ];
    let end = vec![0xff, 0xd9];
    // Behind the end, and inside a comment.
    for after in [
        vec![end.clone(), adobe(1)],
        vec![segment(0xfe, &adobe(1)), end.clone()],
    ] {
        let mut parts = start.to_vec();
        parts.extend(after);
        let picture = decode_image(&file(&parts)).unwrap();
        assert_eq!((picture.width, picture.height), (70, 40));
    }
    // After a restart, and after a comment.
    for after in [
        vec![vec![0xff, 0xd3], adobe(1), end.clone()],
        vec![segment(0xfe, b"more"), adobe(1), end],
    ] {
        let mut parts = start.to_vec();
        parts.extend(after);
        assert_eq!(decode_image(&file(&parts)), Err(DecodeError::Unsafe));
    }
}

#[test]
fn a_segment_of_adobes_that_is_out_of_shape_ends_the_reading() {
    let two = frame(PROGRESSIVE, &[0x11, 0x11]);
    assert!(can_read(&file(&[two.clone(), adobe(2), adobe(3), scan(&[1])])));
    let short = segment(0xee, b"Adobe");
    assert!(can_read(&file(&[two.clone(), adobe(2), short, scan(&[1])])));
    // One of another kind is passed over.
    let other = segment(0xee, b"Other and more");
    assert!(!can_read(&file(&[two, adobe(2), other, scan(&[1])])));
}

#[test]
fn a_second_frame_ends_the_reading() {
    let narrow = frame(BASELINE, &[0x11, 0x21]);
    assert!(can_read(&file(&[narrow.clone(), narrow.clone(), scan(&[1])])));
    // So does one whose length is wrong, or with too many components.
    let mut wrong = narrow.clone();
    wrong[3] += 1;
    wrong.push(0);
    assert!(can_read(&file(&[wrong, scan(&[1])])));
    let many = frame(BASELINE, &[0x11, 0x21, 0x11, 0x11, 0x11]);
    assert!(can_read(&file(&[many, scan(&[1])])));
}

#[test]
fn bytes_between_the_segments_are_passed_over() {
    let narrow = frame(BASELINE, &[0x11, 0x21]);
    assert!(!can_read(&file(&[
        vec![1, 2, 0xff, 0xff],
        narrow.clone(),
        vec![0xff, 0, 0xff],
        scan(&[1])
    ])));
    // A JFIF segment of length 6 takes one byte more.
    let jfif = segment(0xe0, b"JFIF");
    assert!(!can_read(&file(&[
        jfif.clone(),
        vec![0],
        narrow.clone(),
        scan(&[1])
    ])));
    assert!(can_read(&file(&[jfif, narrow, scan(&[1])])));
}

/// All ways to choose one of `factors` for each of `count` components.
fn choices(factors: &[u8], count: usize) -> Vec<Vec<u8>> {
    let mut chosen = vec![vec![]];
    for _ in 0..count {
        chosen = chosen
            .iter()
            .flat_map(|choice: &Vec<u8>| {
                factors.iter().map(|factor| {
                    let mut longer = choice.clone();
                    longer.push(*factor);
                    longer
                })
            })
            .collect();
    }
    chosen
}

/// Reads pictures of one kind in all ways to say how their colours are coded, and to
/// put their components into scans. Gives how many of them may be read.
fn read_all(code: u8, width: u16, height: u16, choices: Vec<Vec<u8>>) -> usize {
    let mut read = 0;
    let mut places = vec![(3, 0)];
    for place in 0..3 {
        for transform in 0..3 {
            places.push((place, transform));
        }
    }
    for factors in choices {
        let components: Vec<u8> = (1..=factors.len() as u8).collect();
        for (place, transform) in &places {
            for (apart, length) in [(false, 1), (false, 30), (true, 1), (true, 12)] {
                let mut parts = Vec::new();
                let said = |here: usize| if *place == here { adobe(*transform) } else { vec![] };
                parts.push(said(0));
                parts.push(quantizers());
                parts.push(codes(0x00));
                parts.push(codes(0x10));
                parts.push(frame_of(code, width, height, &factors));
                parts.push(said(1));
                let last = if code == PROGRESSIVE { 0 } else { 63 };
                let scans: Vec<&[u8]> = if apart {
                    components.chunks(1).collect()
                } else {
                    vec![&components[..]]
                };
                for (i, scanned) in scans.iter().enumerate() {
                    parts.push(scan_of(scanned, 0, last));
                    parts.push(vec![0; length]);
                    if i == 0 {
                        parts.push(said(2));
                    }
                }
                if code == PROGRESSIVE {
                    parts.push(scan_of(&[1], 1, 63));
                    parts.push(vec![0; length]);
                }
                parts.push(vec![0xff, 0xd9]);
                let file = file(&parts);
                if can_read(&file) {
                    read += 1;
                    if let Ok(picture) = decode_image(&file) {
                        assert_eq!(picture.width, u32::from(width));
                        assert_eq!(picture.height, u32::from(height));
                    }
                }
            }
        }
    }
    read
}

#[test]
fn the_reading_of_a_safe_baseline_file_comes_to_an_end() {
    let factors = [0x11, 0x12, 0x14, 0x21, 0x22];
    assert_eq!(read_all(BASELINE, 17, 33, choices(&factors, 1)), 200);
    for (width, height) in [(8, 16), (17, 33)] {
        assert!(read_all(BASELINE, width, height, choices(&factors, 2)) > 0);
        assert!(read_all(BASELINE, width, height, choices(&factors, 3)) > 0);
    }
}

#[test]
fn the_reading_of_a_safe_progressive_file_comes_to_an_end() {
    let factors = [0x11, 0x12, 0x14, 0x21, 0x22];
    assert!(read_all(PROGRESSIVE, 17, 33, choices(&factors, 1)) > 0);
    for (width, height) in [(8, 16), (17, 33)] {
        assert!(read_all(PROGRESSIVE, width, height, choices(&factors, 2)) > 0);
        assert!(read_all(PROGRESSIVE, width, height, choices(&factors, 3)) > 0);
    }
}

#[test]
fn the_reading_of_a_safe_file_with_four_components_comes_to_an_end() {
    let factors = [0x11, 0x21, 0x22];
    for (width, height) in [(8, 16), (17, 33)] {
        assert!(read_all(BASELINE, width, height, choices(&factors, 4)) > 0);
        assert!(read_all(PROGRESSIVE, width, height, choices(&factors, 4)) > 0);
    }
}
