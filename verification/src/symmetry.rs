use vstd::prelude::*;

use crate::animation::{
    duration_fits, playback_for, spec_playback_for, symmetrize_dynamic, symmetrized_frames,
    total_running_nanos, Playback,
};
use crate::decode::{
    decodes_as_still, dispatch, spec_decode_rgba, spec_dispatch, Image, ImageView,
};
use crate::pixels::{
    keeps_named_half, law_static_keeps_named_half, mirrored, spec_mirror_for, symmetrize_static,
    PixelGrid,
};

verus! {

/// The reply to a request that failed for the given reason.
pub fn failure_reply(reason: &str) -> (r: String)
    ensures
        r@ == "对称失败: "@ + reason@,
{
    let mut s = String::from_str("对称失败: ");
    s.append(reason);
    s
}

/// The reason given when the picture could not be downloaded.
pub fn no_picture_reason() -> (r: String)
    ensures
        r@ == "未能识别到图片"@,
{
    String::from_str("未能识别到图片")
}

/// The symmetric version of a decoded picture.
pub open spec fn spec_symmetrized(decoded: ImageView, direction: Seq<char>) -> ImageView {
    match decoded {
        ImageView::Static(g) => ImageView::Static(mirrored(g, spec_mirror_for(direction))),
        ImageView::Dynamic(fs) => ImageView::Dynamic(
            symmetrized_frames(fs, spec_playback_for(direction)),
        ),
    }
}

/// The request cannot be carried out to the end: the picture is to be
/// decoded as a still one and cannot be, or it is an animation whose
/// running time is needed and does not fit in a `Duration`.
pub open spec fn aborts(bytes: Seq<u8>, direction: Seq<char>) -> bool {
    ||| decodes_as_still(bytes) && spec_decode_rgba(bytes) is Err
    ||| match spec_dispatch(bytes) {
        Ok(ImageView::Dynamic(fs)) => !(spec_playback_for(direction) is Mirror) && !duration_fits(
            fs,
        ),
        _ => false,
    }
}

/// The outcome of a request whose download gave `fetched` (`None` when the
/// server answered without success): the symmetric picture, or the reason
/// it could not be made.
pub open spec fn spec_outcome(fetched: Option<Seq<u8>>, direction: Seq<char>) -> Result<
    ImageView,
    Seq<char>,
> {
    match fetched {
        None => Err("未能识别到图片"@),
        Some(bytes) => match spec_dispatch(bytes) {
            Ok(v) => Ok(spec_symmetrized(v, direction)),
            Err(e) => Err(e),
        },
    }
}

/// The views of an outcome.
pub open spec fn outcome_view(r: Result<Image, String>) -> Result<ImageView, Seq<char>> {
    match r {
        Ok(i) => Ok(i@),
        Err(e) => Err(e@),
    }
}

/// Makes the downloaded picture symmetric. Gives `None` where the request
/// cannot be carried out to the end (see [`aborts`]).
pub fn symmetrize_download(fetched: Option<Vec<u8>>, direction: &str) -> (r: Option<
    Result<Image, String>,
>)
    ensures
        r is None <==> (fetched matches Some(b) && aborts(b@, direction@)),
        r matches Some(res) ==> outcome_view(res) == spec_outcome(
            match fetched {
                Some(b) => Some(b@),
                None => None,
            },
            direction@,
        ),
{
    let bytes = match fetched {
        None => return Some(Err(no_picture_reason())),
        Some(b) => b,
    };
    match dispatch(bytes.as_slice()) {
        None => None,
        Some(Err(e)) => Some(Err(e)),
        Some(Ok(Image::Static(img))) => Some(Ok(Image::Static(symmetrize_static(&img, direction)))),
        Some(Ok(Image::Dynamic(frames))) => {
            let playback = playback_for(direction);
            let needs_time = match playback {
                Playback::Mirror(_) => false,
                _ => true,
            };
            if needs_time && total_running_nanos(&frames) > 18_446_744_073_709_551_615_999_999_999u128 {
                None
            } else {
                Some(Ok(Image::Dynamic(symmetrize_dynamic(&frames, direction))))
            }
        },
    }
}

/// A downloaded still picture is answered with the picture that keeps the
/// half the direction word names and reflects it onto the other half.
pub proof fn law_still_outcome_keeps_named_half(
    bytes: Seq<u8>,
    direction: Seq<char>,
    g: PixelGrid,
    x: int,
    y: int,
    c: int,
)
    requires
        spec_dispatch(bytes) == Ok::<ImageView, Seq<char>>(ImageView::Static(g)),
        g.in_bounds(x, y, c),
    ensures
        spec_outcome(Some(bytes), direction) is Ok,
        spec_outcome(Some(bytes), direction)->Ok_0 is Static,
        keeps_named_half(
            spec_outcome(Some(bytes), direction)->Ok_0->Static_0,
            g,
            direction,
            x,
            y,
            c,
        ),
{
    law_static_keeps_named_half(g, direction, x, y, c);
}

} // verus!
