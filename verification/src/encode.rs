use std::io::Cursor;

use vstd::prelude::*;

use crate::animation::{frames_view, AnimFrame, FrameView};
use crate::decode::{Image, ImageView};
use crate::pixels::{PixelGrid, RgbaBuffer};

verus! {

/// The views of an encoding outcome.
pub open spec fn bytes_result_view(r: Result<Vec<u8>, String>) -> Result<Seq<u8>, Seq<char>> {
    match r {
        Ok(b) => Ok(b@),
        Err(e) => Err(e@),
    }
}

/// The PNG file of a picture, or the message of the encoding error.
pub uninterp spec fn spec_encode_png(picture: PixelGrid) -> Result<Seq<u8>, Seq<char>>;

/// Calls `image::write_buffer_with_format` on the picture's pixels with the
/// RGBA8 color type and the PNG format (the encoder that
/// `ImageBuffer::save` picks for a `.png` path) into a byte vector; an
/// error is returned as its message. The contract only claims that the
/// outcome is a function of the picture.
#[verifier::external_body]
fn encode_png(picture: &RgbaBuffer) -> (r: Result<Vec<u8>, String>)
    ensures
        bytes_result_view(r) == spec_encode_png(picture@),
{
    let mut out = Cursor::new(Vec::new());
    image::write_buffer_with_format(&mut out, picture.pixels(), picture.width(), picture.height(),
        image::ExtendedColorType::Rgba8, image::ImageFormat::Png).map_err(|e| e.to_string())?;
    Ok(out.into_inner())
}

/// The GIF file of an animation, or the message of the encoding error.
pub uninterp spec fn spec_encode_gif(frames: Seq<FrameView>) -> Result<Seq<u8>, Seq<char>>;

/// Builds an `image::Frame` of each frame (`RgbaImage::from_raw` on its
/// pixels, which cannot fail as a buffer holds all its pixels, and
/// `Delay::from_numer_denom_ms`, whose denominator is positive), and
/// writes them with `GifEncoder::encode_frames` into a byte vector; the
/// file is complete when the encoder is dropped. An error is returned as
/// its message. The contract only claims that the outcome is a function
/// of the frames.
#[verifier::external_body]
fn encode_gif(frames: &Vec<AnimFrame>) -> (r: Result<Vec<u8>, String>)
    ensures
        bytes_result_view(r) == spec_encode_gif(frames_view(frames@)),
{
    let mut out = Vec::new();
    let images = frames.iter().map(|f| image::Frame::from_parts(image::RgbaImage::from_raw(
        f.buffer.width(), f.buffer.height(), f.buffer.pixels().to_vec()).expect("all pixels"),
        f.left, f.top, image::Delay::from_numer_denom_ms(f.delay.numer, f.delay.denom)));
    image::codecs::gif::GifEncoder::new(&mut out).encode_frames(images).map_err(|e| e.to_string())?;
    Ok(out)
}

/// What a symmetric picture is written as: a still picture as a PNG file,
/// an animation as a GIF file.
pub open spec fn spec_encode_image(image: ImageView) -> Result<Seq<u8>, Seq<char>> {
    match image {
        ImageView::Static(g) => spec_encode_png(g),
        ImageView::Dynamic(fs) => spec_encode_gif(fs),
    }
}

/// Writes a picture as a file's bytes: PNG for a still picture, GIF for an
/// animation.
pub fn encode_image(image: &Image) -> (r: Result<Vec<u8>, String>)
    ensures
        bytes_result_view(r) == spec_encode_image(image@),
{
    match image {
        Image::Static(b) => encode_png(b),
        Image::Dynamic(fs) => encode_gif(fs),
    }
}

/// The file extension for a picture's encoding.
pub fn file_extension(image: &Image) -> (r: &'static str)
    ensures
        r@ == (if image@ is Static { "png"@ } else { "gif"@ }),
{
    match image {
        Image::Static(_) => "png",
        Image::Dynamic(_) => "gif",
    }
}

} // verus!
