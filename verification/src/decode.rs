use std::io::Cursor;

use image::AnimationDecoder;
use vstd::prelude::*;

use crate::animation::{frames_view, AnimFrame, FrameView};
use crate::pixels::{PixelGrid, RgbaBuffer};

verus! {

/// The picture formats that are told apart when a picture is received.
#[derive(Clone, Copy, Debug, PartialEq, Eq, Structural)]
pub enum ImageKind {
    Gif,
    Png,
    WebP,
    Other,
}

/// `bytes` starts with `p`.
pub open spec fn has_prefix(bytes: Seq<u8>, p: Seq<u8>) -> bool {
    p.len() <= bytes.len() && bytes.take(p.len() as int) == p
}

/// The format that the leading bytes announce: the PNG signature, the GIF
/// signatures `GIF89a` and `GIF87a`, or `RIFF`, four bytes, `WEBP`.
pub open spec fn spec_image_kind(bytes: Seq<u8>) -> ImageKind {
    if has_prefix(bytes, seq![0x89u8, 0x50u8, 0x4eu8, 0x47u8, 0x0du8, 0x0au8, 0x1au8, 0x0au8]) {
        ImageKind::Png
    } else if has_prefix(bytes, seq![0x47u8, 0x49u8, 0x46u8, 0x38u8, 0x39u8, 0x61u8]) || has_prefix(
        bytes,
        seq![0x47u8, 0x49u8, 0x46u8, 0x38u8, 0x37u8, 0x61u8],
    ) {
        ImageKind::Gif
    } else if bytes.len() >= 12 && bytes.take(4) == seq![0x52u8, 0x49u8, 0x46u8, 0x46u8]
        && bytes.subrange(8, 12) == seq![0x57u8, 0x45u8, 0x42u8, 0x50u8] {
        ImageKind::WebP
    } else {
        ImageKind::Other
    }
}

/// Calls `image::guess_format` and tells GIF, PNG and WebP apart from any
/// other answer. `guess_format` compares the leading bytes with its table
/// of signatures in order and answers with the first that matches; the
/// table opens with PNG, JPEG (`FF D8 FF`), `GIF89a`, `GIF87a` and WebP
/// (`RIFF`, four bytes of any value, `WEBP`), so the contract states the
/// answer exactly.
#[verifier::external_body]
fn guess_image_kind(bytes: &[u8]) -> (r: ImageKind)
    ensures
        r == spec_image_kind(bytes@),
{
    match image::guess_format(bytes) {
        Ok(image::ImageFormat::Gif) => ImageKind::Gif,
        Ok(image::ImageFormat::Png) => ImageKind::Png,
        Ok(image::ImageFormat::WebP) => ImageKind::WebP,
        _ => ImageKind::Other,
    }
}

/// The views of a decoding result.
pub open spec fn frames_result_view(r: Result<Vec<AnimFrame>, String>) -> Result<
    Seq<FrameView>,
    Seq<char>,
> {
    match r {
        Ok(fs) => Ok(frames_view(fs@)),
        Err(e) => Err(e@),
    }
}

/// The frames of a GIF animation, or the message of the decoding error.
pub uninterp spec fn spec_gif_frames(bytes: Seq<u8>) -> Result<Seq<FrameView>, Seq<char>>;

/// Calls `image::codecs::gif::GifDecoder::new` on the bytes and collects
/// all frames (`AnimationDecoder::into_frames`, `Frames::collect_frames`);
/// an error is returned as its message. The contract only claims that the
/// outcome is a function of the bytes; the frames it builds rely on the
/// image crate's guarantees that a frame's buffer holds all its pixels and
/// that a `Delay` has a positive denominator.
#[verifier::external_body]
fn gif_frames(bytes: &[u8]) -> (r: Result<Vec<AnimFrame>, String>)
    ensures
        frames_result_view(r) == spec_gif_frames(bytes@),
{
    let frames = image::codecs::gif::GifDecoder::new(Cursor::new(bytes))
        .and_then(|d| d.into_frames().collect_frames());
    frames.map(|fs| fs.iter().map(|f| AnimFrame::assemble(f.buffer().width(), f.buffer().height(),
        f.buffer().as_raw().clone(), f.left(), f.top(), f.delay().numer_denom_ms())).collect())
        .map_err(|e| e.to_string())
}

/// Whether a PNG file is an animated PNG, or the message of the error.
pub uninterp spec fn spec_png_is_animated(bytes: Seq<u8>) -> Result<bool, Seq<char>>;

/// Calls `image::codecs::png::PngDecoder::new` on the bytes and then
/// `PngDecoder::is_apng`; an error is returned as its message. The contract
/// only claims that the outcome is a function of the bytes.
#[verifier::external_body]
fn png_is_animated(bytes: &[u8]) -> (r: Result<bool, String>)
    ensures
        match r {
            Ok(b) => spec_png_is_animated(bytes@) == Ok::<bool, Seq<char>>(b),
            Err(e) => spec_png_is_animated(bytes@) == Err::<bool, Seq<char>>(e@),
        },
{
    image::codecs::png::PngDecoder::new(Cursor::new(bytes)).and_then(|d| d.is_apng()).map_err(
        |e| e.to_string(),
    )
}

/// The frames of an animated PNG, or the message of the decoding error.
pub uninterp spec fn spec_apng_frames(bytes: Seq<u8>) -> Result<Seq<FrameView>, Seq<char>>;

/// Calls `image::codecs::png::PngDecoder::new` on the bytes, then
/// `PngDecoder::apng`, and collects all frames; an error is returned as its
/// message. The contract only claims that the outcome is a function of the
/// bytes; the frames rely on the same guarantees as those of
/// [`gif_frames`].
#[verifier::external_body]
fn apng_frames(bytes: &[u8]) -> (r: Result<Vec<AnimFrame>, String>)
    ensures
        frames_result_view(r) == spec_apng_frames(bytes@),
{
    let frames = image::codecs::png::PngDecoder::new(Cursor::new(bytes))
        .and_then(|d| d.apng()).and_then(|d| d.into_frames().collect_frames());
    frames.map(|fs| fs.iter().map(|f| AnimFrame::assemble(f.buffer().width(), f.buffer().height(),
        f.buffer().as_raw().clone(), f.left(), f.top(), f.delay().numer_denom_ms())).collect())
        .map_err(|e| e.to_string())
}

/// Whether a WebP file is animated, or the message of the error.
pub uninterp spec fn spec_webp_is_animated(bytes: Seq<u8>) -> Result<bool, Seq<char>>;

/// Calls `image::codecs::webp::WebPDecoder::new` on the bytes and then
/// `WebPDecoder::has_animation`; an error is returned as its message. The
/// contract only claims that the outcome is a function of the bytes.
#[verifier::external_body]
fn webp_is_animated(bytes: &[u8]) -> (r: Result<bool, String>)
    ensures
        match r {
            Ok(b) => spec_webp_is_animated(bytes@) == Ok::<bool, Seq<char>>(b),
            Err(e) => spec_webp_is_animated(bytes@) == Err::<bool, Seq<char>>(e@),
        },
{
    image::codecs::webp::WebPDecoder::new(Cursor::new(bytes)).map(|d| d.has_animation()).map_err(
        |e| e.to_string(),
    )
}

/// The view of one frame's decoding outcome.
pub open spec fn frame_outcome_view(r: Result<AnimFrame, String>) -> Result<FrameView, Seq<char>> {
    match r {
        Ok(f) => Ok(f@),
        Err(e) => Err(e@),
    }
}

/// The views of the outcomes of all frames.
pub open spec fn frame_outcomes_view(rs: Seq<Result<AnimFrame, String>>) -> Seq<
    Result<FrameView, Seq<char>>,
> {
    rs.map_values(|r: Result<AnimFrame, String>| frame_outcome_view(r))
}

/// The views of an animation's decoding outcome, frame by frame.
pub open spec fn frame_results_view(r: Result<Vec<Result<AnimFrame, String>>, String>) -> Result<
    Seq<Result<FrameView, Seq<char>>>,
    Seq<char>,
> {
    match r {
        Ok(rs) => Ok(frame_outcomes_view(rs@)),
        Err(e) => Err(e@),
    }
}

/// The decoding outcome of each frame of an animated WebP file, or the
/// message of the error when the file cannot be opened.
pub uninterp spec fn spec_webp_frame_results(bytes: Seq<u8>) -> Result<
    Seq<Result<FrameView, Seq<char>>>,
    Seq<char>,
>;

/// Calls `image::codecs::webp::WebPDecoder::new` on the bytes and hands
/// back the outcome of every frame that `AnimationDecoder::into_frames`
/// yields, in order, an error as its message; an error of the constructor
/// is returned as its message. The contract only claims that the outcome
/// is a function of the bytes; the frames rely on the same guarantees as
/// those of [`gif_frames`].
#[verifier::external_body]
fn webp_frame_results(bytes: &[u8]) -> (r: Result<Vec<Result<AnimFrame, String>>, String>)
    ensures
        frame_results_view(r) == spec_webp_frame_results(bytes@),
{
    let decoder = image::codecs::webp::WebPDecoder::new(Cursor::new(bytes));
    decoder.map(|d| d.into_frames().map(|r| r.map(|f| AnimFrame::assemble(f.buffer().width(),
        f.buffer().height(), f.buffer().as_raw().clone(), f.left(), f.top(),
        f.delay().numer_denom_ms())).map_err(|e| e.to_string())).collect()).map_err(|e| e.to_string())
}

/// The frames before the first frame that failed to decode.
pub open spec fn spec_frames_before_first_error(rs: Seq<Result<FrameView, Seq<char>>>) -> Seq<
    FrameView,
>
    decreases rs.len(),
{
    if rs.len() == 0 {
        Seq::empty()
    } else {
        match rs[0] {
            Ok(f) => seq![f] + spec_frames_before_first_error(rs.drop_first()),
            Err(_) => Seq::empty(),
        }
    }
}

/// Keeps the frames that decoded, up to the first one that failed.
pub fn frames_before_first_error(results: Vec<Result<AnimFrame, String>>) -> (r: Vec<AnimFrame>)
    ensures
        frames_view(r@) == spec_frames_before_first_error(frame_outcomes_view(results@)),
{
    let ghost whole = frame_outcomes_view(results@);
    let mut rest = results;
    let mut out: Vec<AnimFrame> = Vec::new();
    proof {
        assert(frames_view(out@) =~= Seq::<FrameView>::empty());
        assert(Seq::<FrameView>::empty() + spec_frames_before_first_error(whole)
            =~= spec_frames_before_first_error(whole));
    }
    while rest.len() > 0
        invariant
            whole == frame_outcomes_view(results@),
            frames_view(out@) + spec_frames_before_first_error(frame_outcomes_view(rest@))
                == spec_frames_before_first_error(whole),
        decreases rest.len(),
    {
        let ghost rv = frame_outcomes_view(rest@);
        let first = rest.remove(0);
        proof {
            assert(frame_outcomes_view(rest@) =~= rv.drop_first());
            assert(rv[0] == frame_outcome_view(first));
        }
        match first {
            Ok(f) => {
                let ghost before = frames_view(out@);
                out.push(f);
                proof {
                    assert(frames_view(out@) =~= before + seq![f@]);
                    assert(before + (seq![f@] + spec_frames_before_first_error(rv.drop_first()))
                        =~= frames_view(out@) + spec_frames_before_first_error(rv.drop_first()));
                }
            },
            Err(_) => {
                proof {
                    assert(rv[0] is Err);
                    assert(spec_frames_before_first_error(rv) == Seq::<FrameView>::empty());
                    assert(frames_view(out@) + Seq::<FrameView>::empty() =~= frames_view(out@));
                }
                return out;
            },
        }
    }
    proof {
        assert(frames_view(out@) + Seq::<FrameView>::empty() =~= frames_view(out@));
    }
    out
}

/// The frames of an animated WebP file up to its first frame that fails
/// to decode, or the error when the file cannot be opened.
pub open spec fn spec_webp_frames(bytes: Seq<u8>) -> Result<Seq<FrameView>, Seq<char>> {
    match spec_webp_frame_results(bytes) {
        Ok(rs) => Ok(spec_frames_before_first_error(rs)),
        Err(e) => Err(e),
    }
}

/// Decodes an animated WebP file, keeping its frames up to the first one
/// that fails to decode.
fn webp_frames(bytes: &[u8]) -> (r: Result<Vec<AnimFrame>, String>)
    ensures
        frames_result_view(r) == spec_webp_frames(bytes@),
{
    match webp_frame_results(bytes) {
        Ok(results) => Ok(frames_before_first_error(results)),
        Err(e) => Err(e),
    }
}

/// The still picture in the bytes as RGBA, or the message of the error.
pub uninterp spec fn spec_decode_rgba(bytes: Seq<u8>) -> Result<PixelGrid, Seq<char>>;

/// Calls `image::load_from_memory` on the bytes and converts the picture
/// with `DynamicImage::into_rgba8`; an error is returned as its message.
/// The contract only claims that the outcome is a function of the bytes;
/// the picture relies on the image crate's guarantee that an `RgbaImage`
/// holds all its pixels.
#[verifier::external_body]
fn decode_rgba(bytes: &[u8]) -> (r: Result<RgbaBuffer, String>)
    ensures
        match r {
            Ok(b) => spec_decode_rgba(bytes@) == Ok::<PixelGrid, Seq<char>>(b@),
            Err(e) => spec_decode_rgba(bytes@) == Err::<PixelGrid, Seq<char>>(e@),
        },
{
    image::load_from_memory(bytes).map(|d| d.into_rgba8()).map(
        |b| RgbaBuffer::assemble(b.width(), b.height(), b.into_raw()),
    ).map_err(|e| e.to_string())
}

/// A received picture: a still one or an animation.
pub enum Image {
    Static(RgbaBuffer),
    Dynamic(Vec<AnimFrame>),
}

/// The mathematical content of an [`Image`].
pub enum ImageView {
    Static(PixelGrid),
    Dynamic(Seq<FrameView>),
}

impl View for Image {
    type V = ImageView;

    open spec fn view(&self) -> ImageView {
        match self {
            Image::Static(b) => ImageView::Static(b@),
            Image::Dynamic(fs) => ImageView::Dynamic(frames_view(fs@)),
        }
    }
}

/// The views of a decoding outcome.
pub open spec fn image_result_view(r: Result<Image, String>) -> Result<ImageView, Seq<char>> {
    match r {
        Ok(i) => Ok(i@),
        Err(e) => Err(e@),
    }
}

/// Animation frames as a decoding outcome.
pub open spec fn as_animation(r: Result<Seq<FrameView>, Seq<char>>) -> Result<ImageView, Seq<char>> {
    match r {
        Ok(fs) => Ok(ImageView::Dynamic(fs)),
        Err(e) => Err(e),
    }
}

/// A still picture as a decoding outcome.
pub open spec fn as_still(r: Result<PixelGrid, Seq<char>>) -> Result<ImageView, Seq<char>> {
    match r {
        Ok(g) => Ok(ImageView::Static(g)),
        Err(e) => Err(e),
    }
}

/// The bytes are decoded as a still picture: the format is not GIF, and a
/// PNG or WebP file is not animated.
pub open spec fn decodes_as_still(bytes: Seq<u8>) -> bool {
    match spec_image_kind(bytes) {
        ImageKind::Gif => false,
        ImageKind::Png => spec_png_is_animated(bytes) == Ok::<bool, Seq<char>>(false),
        ImageKind::WebP => spec_webp_is_animated(bytes) == Ok::<bool, Seq<char>>(false),
        ImageKind::Other => true,
    }
}

/// What a received picture decodes to: a GIF as its frames; a PNG as its
/// frames when animated, else as a still picture; a WebP file likewise
/// (its frames up to the first that fails); any other bytes as a still
/// picture. An error in probing or decoding an animation is the outcome.
pub open spec fn spec_dispatch(bytes: Seq<u8>) -> Result<ImageView, Seq<char>> {
    match spec_image_kind(bytes) {
        ImageKind::Gif => as_animation(spec_gif_frames(bytes)),
        ImageKind::Png => match spec_png_is_animated(bytes) {
            Ok(true) => as_animation(spec_apng_frames(bytes)),
            Ok(false) => as_still(spec_decode_rgba(bytes)),
            Err(e) => Err(e),
        },
        ImageKind::WebP => match spec_webp_is_animated(bytes) {
            Ok(true) => as_animation(spec_webp_frames(bytes)),
            Ok(false) => as_still(spec_decode_rgba(bytes)),
            Err(e) => Err(e),
        },
        ImageKind::Other => as_still(spec_decode_rgba(bytes)),
    }
}

/// Decodes a received picture, deciding the format and probing the
/// header once and decoding once. Gives `None` exactly where the picture
/// is to be decoded as a still one and that decoding fails (the input on
/// which the plugin gives up).
pub fn dispatch(bytes: &[u8]) -> (r: Option<Result<Image, String>>)
    ensures
        r is None <==> (decodes_as_still(bytes@) && spec_decode_rgba(bytes@) is Err),
        r matches Some(d) ==> image_result_view(d) == spec_dispatch(bytes@),
{
    match guess_image_kind(bytes) {
        ImageKind::Gif => Some(animation(gif_frames(bytes))),
        ImageKind::Png => match png_is_animated(bytes) {
            Ok(true) => Some(animation(apng_frames(bytes))),
            Ok(false) => still(bytes),
            Err(e) => Some(Err(e)),
        },
        ImageKind::WebP => match webp_is_animated(bytes) {
            Ok(true) => Some(animation(webp_frames(bytes))),
            Ok(false) => still(bytes),
            Err(e) => Some(Err(e)),
        },
        ImageKind::Other => still(bytes),
    }
}

fn animation(frames: Result<Vec<AnimFrame>, String>) -> (r: Result<Image, String>)
    ensures
        image_result_view(r) == as_animation(frames_result_view(frames)),
{
    match frames {
        Ok(fs) => Ok(Image::Dynamic(fs)),
        Err(e) => Err(e),
    }
}

fn still(bytes: &[u8]) -> (r: Option<Result<Image, String>>)
    ensures
        r is None <==> spec_decode_rgba(bytes@) is Err,
        r matches Some(d) ==> image_result_view(d) == as_still(spec_decode_rgba(bytes@)),
{
    match decode_rgba(bytes) {
        Ok(b) => Some(Ok(Image::Static(b))),
        Err(_) => None,
    }
}

} // verus!
