use image::imageops::{flip_horizontal, flip_vertical};
use image::RgbaImage;
use kovi_plugins::animation::delay_from_nanos;
use kovi_plugins::animation::{symmetrize_dynamic, AnimFrame, FrameDelay};
use kovi_plugins::pixels::{mirror_image, symmetrize_static, Mirror, RgbaBuffer};

/// A picture whose pixel (x, y) has red = 10 * y + x and the other
/// channels fixed.
fn numbered(width: u32, height: u32) -> RgbaBuffer {
    let mut data = Vec::new();
    for y in 0..height {
        for x in 0..width {
            data.extend_from_slice(&[(10 * y + x) as u8, 1, 2, 255]);
        }
    }
    RgbaBuffer::from_raw(width, height, data).unwrap()
}

fn reds(b: &RgbaBuffer) -> Vec<u8> {
    b.as_raw().chunks(4).map(|p| p[0]).collect()
}

#[test]
fn from_raw_checks_length() {
    assert!(RgbaBuffer::from_raw(2, 2, vec![0; 15]).is_none());
    assert!(RgbaBuffer::from_raw(2, 2, vec![0; 16]).is_some());
    assert!(RgbaBuffer::from_raw(2, 2, vec![0; 20]).is_some());
    assert!(RgbaBuffer::from_raw(0, 5, vec![]).is_some());
    let b = RgbaBuffer::from_raw(1, 1, vec![1, 2, 3, 4]).unwrap();
    assert_eq!((b.width(), b.height()), (1, 1));
    assert_eq!(b.into_raw(), vec![1, 2, 3, 4]);
}

#[test]
fn static_left_keeps_left_half() {
    let img = numbered(3, 2);
    let out = symmetrize_static(&img, "左");
    assert_eq!((out.width(), out.height()), (3, 2));
    assert_eq!(reds(&out), vec![0, 1, 0, 10, 11, 10]);
    assert_eq!(&out.as_raw()[0..4], &[0, 1, 2, 255]);
}

#[test]
fn static_right_keeps_right_half() {
    let out = symmetrize_static(&numbered(3, 2), "右");
    assert_eq!(reds(&out), vec![2, 1, 2, 12, 11, 12]);
}

#[test]
fn static_up_and_down() {
    let img = numbered(2, 3);
    assert_eq!(reds(&symmetrize_static(&img, "上")), vec![0, 1, 10, 11, 0, 1]);
    assert_eq!(reds(&symmetrize_static(&img, "下")), vec![20, 21, 10, 11, 20, 21]);
}

#[test]
fn static_other_word_acts_as_left() {
    let img = numbered(4, 1);
    assert_eq!(reds(&symmetrize_static(&img, "前")), vec![0, 1, 1, 0]);
    assert_eq!(reds(&symmetrize_static(&img, "左右")), vec![0, 1, 1, 0]);
    assert_eq!(reds(&symmetrize_static(&img, "")), vec![0, 1, 1, 0]);
}

#[test]
fn static_drops_padding_bytes() {
    let mut data = vec![7, 7, 7, 7, 8, 8, 8, 8];
    data.extend_from_slice(&[9, 9]);
    let img = RgbaBuffer::from_raw(2, 1, data).unwrap();
    let out = mirror_image(&img, Mirror::KeepRight);
    assert_eq!(out.as_raw(), &vec![8, 8, 8, 8, 8, 8, 8, 8]);
}

#[test]
fn mirror_twice_is_mirror_once() {
    let img = numbered(5, 3);
    for m in [Mirror::KeepLeft, Mirror::KeepRight, Mirror::KeepTop, Mirror::KeepBottom] {
        let once = mirror_image(&img, m);
        let twice = mirror_image(&once, m);
        assert_eq!(once.as_raw(), twice.as_raw());
    }
}

#[test]
fn mirrored_picture_is_symmetric() {
    let img = numbered(5, 3);
    let out = mirror_image(&img, Mirror::KeepRight);
    let r = reds(&out);
    for y in 0..3 {
        for x in 0..5 {
            assert_eq!(r[y * 5 + x], r[y * 5 + (4 - x)]);
        }
    }
}

#[test]
fn empty_picture_stays_empty() {
    let img = RgbaBuffer::from_raw(0, 0, vec![]).unwrap();
    let out = symmetrize_static(&img, "左");
    assert_eq!((out.width(), out.height(), out.as_raw().len()), (0, 0, 0));
}

fn frame(red: u8, delay_ms: u32) -> AnimFrame {
    AnimFrame {
        buffer: RgbaBuffer::from_raw(2, 1, vec![red, 0, 0, 255, red + 1, 0, 0, 255]).unwrap(),
        left: red as u32,
        top: 3,
        delay: FrameDelay::new(delay_ms, 1),
    }
}

fn summary(frames: &[AnimFrame]) -> Vec<(u8, u32, (u32, u32))> {
    frames.iter().map(|f| (f.buffer.as_raw()[0], f.left, f.delay.numer_denom_ms())).collect()
}

#[test]
fn delay_in_nanoseconds() {
    assert_eq!(FrameDelay::new(10, 1).nanos(), 10_000_000);
    assert_eq!(FrameDelay::new(1, 3).nanos(), 333_333);
    assert_eq!(FrameDelay::new(0, 7).nanos(), 0);
    assert_eq!(FrameDelay::new(u32::MAX, 1).nanos(), 4_294_967_295_000_000);
}

#[test]
fn dynamic_mirror_each_frame() {
    let frames = vec![frame(10, 100), frame(20, 40)];
    let out = symmetrize_dynamic(&frames, "右");
    assert_eq!(out.len(), 2);
    assert_eq!(out[0].buffer.as_raw(), &vec![11, 0, 0, 255, 11, 0, 0, 255]);
    assert_eq!(out[1].buffer.as_raw(), &vec![21, 0, 0, 255, 21, 0, 0, 255]);
    assert_eq!(summary(&out), vec![(11, 10, (100, 1)), (21, 20, (40, 1))]);
    assert_eq!(out[0].top, 3);
}

#[test]
fn dynamic_other_word_mirrors_left() {
    let frames = vec![frame(10, 100)];
    let out = symmetrize_dynamic(&frames, "斜");
    assert_eq!(out[0].buffer.as_raw(), &vec![10, 0, 0, 255, 10, 0, 0, 255]);
}

#[test]
fn dynamic_forward_plays_first_half_and_back() {
    let frames = vec![frame(10, 100), frame(20, 100), frame(30, 100)];
    let out = symmetrize_dynamic(&frames, "前");
    assert_eq!(
        summary(&out),
        vec![(10, 10, (100, 1)), (20, 20, (50, 1)), (20, 20, (50, 1)), (10, 10, (100, 1))]
    );
    assert_eq!(out[0].buffer.as_raw(), frames[0].buffer.as_raw());
}

#[test]
fn dynamic_backward_plays_last_half_and_back() {
    let frames = vec![frame(10, 100), frame(20, 100), frame(30, 100)];
    let out = symmetrize_dynamic(&frames, "后");
    assert_eq!(
        summary(&out),
        vec![(30, 30, (100, 1)), (20, 20, (50, 1)), (20, 20, (50, 1)), (30, 30, (100, 1))]
    );
}

#[test]
fn dynamic_forward_cuts_first_frame_when_it_is_long() {
    let frames = vec![frame(10, 1000), frame(20, 100)];
    let out = symmetrize_dynamic(&frames, "前");
    assert_eq!(summary(&out), vec![(10, 10, (550, 1)), (10, 10, (550, 1))]);
}

#[test]
fn dynamic_forward_of_nothing_is_nothing() {
    let out = symmetrize_dynamic(&Vec::new(), "前");
    assert!(out.is_empty());
}

#[test]
fn dynamic_half_playback_is_palindrome() {
    let frames: Vec<AnimFrame> = (0..7).map(|i| frame(10 * i, 30 + 10 * i as u32)).collect();
    for word in ["前", "后"] {
        let s = summary(&symmetrize_dynamic(&frames, word));
        let mut rev = s.clone();
        rev.reverse();
        assert_eq!(s, rev);
        assert_eq!(s.len() % 2, 0);
    }
}

#[test]
fn symmetric_picture_is_unchanged() {
    let data: Vec<u8> = [1u8, 2, 2, 1, 5, 6, 6, 5]
        .iter()
        .flat_map(|&r| [r, r, r, 255])
        .collect();
    let img = RgbaBuffer::from_raw(4, 2, data.clone()).unwrap();
    assert_eq!(symmetrize_static(&img, "左").as_raw(), &data);
    assert_eq!(symmetrize_static(&img, "右").as_raw(), &data);
}

#[test]
fn pixels_leave_out_padding() {
    let img = RgbaBuffer::from_raw(1, 1, vec![1, 2, 3, 4, 5]).unwrap();
    assert_eq!(img.pixels(), &[1, 2, 3, 4]);
}

#[test]
fn delay_for_a_length_of_time() {
    assert_eq!(delay_from_nanos(50_000_000).numer_denom_ms(), (50, 1));
    assert_eq!(delay_from_nanos(0).numer_denom_ms(), (0, 1));
    assert_eq!(delay_from_nanos(1_500_000).numer_denom_ms(), (3, 2));
    assert_eq!(delay_from_nanos(4_294_967_295_000_000).numer_denom_ms(), (u32::MAX, 1));
}

#[test]
fn backward_is_forward_of_reversed() {
    let frames: Vec<AnimFrame> = (0..5).map(|i| frame(10 * i, 20 + 15 * i as u32)).collect();
    let reversed: Vec<AnimFrame> = frames.iter().rev().map(|f| f.duplicate()).collect();
    let back = symmetrize_dynamic(&frames, "后");
    let fwd = symmetrize_dynamic(&reversed, "前");
    assert_eq!(summary(&back), summary(&fwd));
    for (a, b) in back.iter().zip(fwd.iter()) {
        assert_eq!(a.buffer.as_raw(), b.buffer.as_raw());
        assert_eq!(a.top, b.top);
    }
}

#[test]
fn right_is_flipped_left() {
    let img = numbered(5, 3);
    let to_image = |b: &RgbaBuffer| RgbaImage::from_raw(b.width(), b.height(), b.as_raw().clone()).unwrap();
    let from_image = |i: RgbaImage| RgbaBuffer::from_raw(i.width(), i.height(), i.into_raw()).unwrap();
    let flipped = from_image(flip_horizontal(&to_image(&img)));
    let expected = flip_horizontal(&to_image(&symmetrize_static(&flipped, "左")));
    assert_eq!(symmetrize_static(&img, "右").as_raw(), expected.as_raw());
    let flipped = from_image(flip_vertical(&to_image(&img)));
    let expected = flip_vertical(&to_image(&symmetrize_static(&flipped, "上")));
    assert_eq!(symmetrize_static(&img, "下").as_raw(), expected.as_raw());
}
