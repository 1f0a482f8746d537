//! Pictures, and how they are read from files.

use std::io::Cursor;

use image::codecs::jpeg::JpegDecoder;
use image::{DynamicImage, GenericImageView, ImageError};
use vstd::prelude::*;

use crate::decoder::{can_read, safe_to_read};
use crate::pixmap::{lemma_offset, offset};

verus! {

/// The error of the `image` crate.
#[verifier::external_type_specification]
#[verifier::external_body]
pub struct ExImageError(ImageError);

/// The size that the header of the JPEG file `data` gives, as
/// `image::codecs::jpeg::JpegDecoder::new` reads it: columns, then rows. `None`
/// where it finds no header that it can read.
pub uninterp spec fn jpeg_size(data: Seq<u8>) -> Option<(u32, u32)>;

/// The pixels of the JPEG file `data`, row by row, as `image::DynamicImage::from_decoder`
/// reads them on a machine with words of `bits` bits. `None` where it cannot read
/// them: they are damaged, or too many for such a machine.
pub uninterp spec fn jpeg_pixels(data: Seq<u8>, bits: int) -> Option<Seq<[u8; 4]>>;

/// Reads a JPEG file with `image::codecs::jpeg::JpegDecoder::new`, which reads the
/// header, and `image::DynamicImage::from_decoder`, which reads the pixels, and
/// hands the pixels out as `image::GenericImageView::pixels` does: row by row, each
/// as red, green, blue and alpha.
///
/// The outer error is that of the first function, the inner one that of the second.
/// Claimed: each fails or not by the file alone, but for the size of the machine's
/// words, which bounds the pixels that can be held. A picture has the size that its
/// header gives and the pixels that its file gives, no side of it is zero or longer
/// than 65535, and there is one pixel for each place in it.
///
/// The files on which the decoder panics are left out, those on which only a decoder
/// with overflow checks does among them. The coded samples are not looked at, so a file
/// is left out where some samples behind its header would do.
#[verifier::external_body]
fn read_jpeg(data: &[u8]) -> (outcome: Result<
    Result<(u32, u32, Vec<[u8; 4]>), ImageError>,
    ImageError,
>)
    requires
        safe_to_read(data@),
    ensures
        outcome is Ok <==> jpeg_size(data@) is Some,
        outcome matches Ok(inner) ==> (inner is Ok <==> jpeg_pixels(
            data@,
            usize::BITS as int,
        ) is Some),
        outcome matches Ok(Ok((width, height, pixels))) ==> {
            &&& jpeg_size(data@) == Some((width, height))
            &&& jpeg_pixels(data@, usize::BITS as int) == Some(pixels@)
            &&& 0 < width <= 65535
            &&& 0 < height <= 65535
            &&& pixels@.len() == width * height
        },
{
    let decoder = JpegDecoder::new(Cursor::new(data))?;
    let image = match DynamicImage::from_decoder(decoder) {
        Ok(image) => image,
        Err(error) => return Ok(Err(error)),
    };
    let pixels = image.pixels().map(|(_, _, pixel)| pixel.0).collect();
    Ok(Ok((image.width(), image.height(), pixels)))
}

/// A picture: its pixels row by row, each as red, green, blue and alpha.
#[derive(Debug, Clone, PartialEq, Eq)]
pub struct Picture {
    pub width: u32,
    pub height: u32,
    pub pixels: Vec<[u8; 4]>,
}

/// Why a file is no picture.
#[derive(Debug, Clone, Copy, PartialEq, Eq)]
pub enum DecodeError {
    /// The decoder cannot be trusted with the file.
    Unsafe,
    /// The header cannot be read.
    Header,
    /// The header can be read, the pixels cannot.
    Pixels,
}

impl DecodeError {
    /// The error in words.
    pub fn message(&self) -> (text: &'static str)
        ensures
            text@ == match *self {
                DecodeError::Unsafe => "Unsafe image"@,
                DecodeError::Header => "Failed to create decoder"@,
                DecodeError::Pixels => "Failed to decode image"@,
            },
    {
        match self {
            DecodeError::Unsafe => "Unsafe image",
            DecodeError::Header => "Failed to create decoder",
            DecodeError::Pixels => "Failed to decode image",
        }
    }
}

/// Whether the JPEG file `data` can be read on this machine.
pub open spec fn readable(data: Seq<u8>) -> bool {
    &&& safe_to_read(data)
    &&& jpeg_size(data) is Some
    &&& jpeg_pixels(data, usize::BITS as int) is Some
}

/// Whether `picture` is what the JPEG file `data` holds.
pub open spec fn decoded_from(picture: Picture, data: Seq<u8>) -> bool {
    &&& safe_to_read(data)
    &&& jpeg_size(data) == Some((picture.width, picture.height))
    &&& jpeg_pixels(data, usize::BITS as int) == Some(picture.pixels@)
    &&& 0 < picture.width <= 65535
    &&& 0 < picture.height <= 65535
    &&& picture.wf()
}

/// The picture that the decoder came to: the sides and the pixels. The outer error is
/// that of the header, the inner one that of the pixels.
pub fn to_picture(
    outcome: Result<Result<(u32, u32, Vec<[u8; 4]>), ImageError>, ImageError>,
) -> (result: Result<Picture, DecodeError>)
    ensures
        result == match outcome {
            Err(_) => Err::<Picture, DecodeError>(DecodeError::Header),
            Ok(Err(_)) => Err(DecodeError::Pixels),
            Ok(Ok((width, height, pixels))) => Ok(Picture { width, height, pixels }),
        },
{
    match outcome {
        Err(_) => Err(DecodeError::Header),
        Ok(Err(_)) => Err(DecodeError::Pixels),
        Ok(Ok((width, height, pixels))) => Ok(Picture { width, height, pixels }),
    }
}

/// Reads the JPEG file `data`.
pub fn decode_image(data: &[u8]) -> (result: Result<Picture, DecodeError>)
    ensures
        result is Ok <==> readable(data@),
        result matches Ok(picture) ==> decoded_from(picture, data@),
        result matches Err(error) ==> error == if !safe_to_read(data@) {
            DecodeError::Unsafe
        } else if jpeg_size(data@) is None {
            DecodeError::Header
        } else {
            DecodeError::Pixels
        },
{
    if !can_read(data) {
        return Err(DecodeError::Unsafe);
    }
    to_picture(read_jpeg(data))
}

/// A file holds one picture: reading it again gives the same size and the same pixels.
pub proof fn lemma_same_file_same_picture(first: Picture, second: Picture, data: Seq<u8>)
    requires
        decoded_from(first, data),
        decoded_from(second, data),
    ensures
        first.width == second.width,
        first.height == second.height,
        first.pixels@ == second.pixels@,
{
}

impl Picture {
    /// There is one pixel for each place in the picture.
    pub open spec fn wf(&self) -> bool {
        self.pixels@.len() == self.width * self.height
    }

    /// The pixel in column `x` of row `y`.
    pub open spec fn at(&self, x: int, y: int) -> [u8; 4] {
        self.pixels@[offset(self.width as int, x, y)]
    }

    /// The pixel in column `x` of row `y`: red, green, blue and alpha.
    pub fn get_pixel(&self, x: u32, y: u32) -> (pixel: [u8; 4])
        requires
            self.wf(),
            x < self.width,
            y < self.height,
        ensures
            pixel == self.at(x as int, y as int),
    {
        proof {
            assert(self.pixels.len() <= usize::MAX);
            lemma_offset(self.width as int, self.height as int, x as int, y as int);
        }
        let place: usize = y as usize * self.width as usize + x as usize;
        self.pixels[place]
    }
}

} // verus!
