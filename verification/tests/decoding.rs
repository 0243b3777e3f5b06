use kovi_plugins::encode::{encode_image, file_extension};
use kovi_plugins::pixels::RgbaBuffer;
use std::io::Cursor;

use image::codecs::gif::GifEncoder;
use image::{Delay, Frame, ImageFormat, RgbaImage};
use kovi_plugins::decode::{dispatch, frames_before_first_error, Image};
use kovi_plugins::symmetry::{failure_reply, no_picture_reason, symmetrize_download};

fn png_bytes() -> Vec<u8> {
    let img = RgbaImage::from_raw(2, 1, vec![255, 0, 0, 255, 0, 0, 255, 255]).unwrap();
    let mut buf = Vec::new();
    img.write_to(&mut Cursor::new(&mut buf), ImageFormat::Png).unwrap();
    buf
}

fn gif_bytes() -> Vec<u8> {
    let mut buf = Vec::new();
    {
        let mut enc = GifEncoder::new(&mut buf);
        let frames = (0..3u32).map(|i| {
            let px = if i % 2 == 0 { [255, 0, 0, 255] } else { [0, 0, 255, 255] };
            let data: Vec<u8> = px.iter().chain(px.iter()).copied().collect();
            Frame::from_parts(
                RgbaImage::from_raw(2, 1, data).unwrap(),
                0,
                0,
                Delay::from_numer_denom_ms(100, 1),
            )
        });
        enc.encode_frames(frames).unwrap();
    }
    buf
}

#[test]
fn png_still_picture() {
    match dispatch(&png_bytes()) {
        Some(Ok(Image::Static(b))) => {
            assert_eq!((b.width(), b.height()), (2, 1));
            assert_eq!(b.as_raw(), &vec![255, 0, 0, 255, 0, 0, 255, 255]);
        },
        _ => panic!("expected a still picture"),
    }
    }

#[test]
fn gif_animation_frames() {
    match dispatch(&gif_bytes()) {
        Some(Ok(Image::Dynamic(frames))) => {
            assert_eq!(frames.len(), 3);
            for f in &frames {
                assert_eq!((f.buffer.width(), f.buffer.height()), (2, 1));
                assert_eq!(f.delay.nanos(), 100_000_000);
            }
            assert_eq!(&frames[0].buffer.as_raw()[0..4], &[255, 0, 0, 255]);
            assert_eq!(&frames[1].buffer.as_raw()[0..4], &[0, 0, 255, 255]);
        },
        _ => panic!("expected an animation"),
    }
}

#[test]
fn unreadable_bytes_abort() {
    assert!(dispatch(&[1, 2, 3]).is_none());
    assert!(dispatch(&[]).is_none());
}

#[test]
fn broken_animation_files_are_errors() {
    assert!(matches!(dispatch(b"GIF89a\x00\x00"), Some(Err(_))));
    assert!(matches!(dispatch(b"RIFF\x00\x00\x00\x00WEBPjunk"), Some(Err(_))));
    assert!(matches!(dispatch(b"\x89PNG\r\n\x1a\nxx"), Some(Err(_))));
}

#[test]
fn download_without_picture() {
    match symmetrize_download(None, "左") {
        Some(Err(e)) => assert_eq!(e, "未能识别到图片"),
        _ => panic!("expected the missing-picture reason"),
    }
    assert_eq!(no_picture_reason(), "未能识别到图片");
}

#[test]
fn download_of_still_picture() {
    match symmetrize_download(Some(png_bytes()), "右") {
        Some(Ok(Image::Static(b))) => {
            assert_eq!(b.as_raw(), &vec![0, 0, 255, 255, 0, 0, 255, 255]);
        },
        _ => panic!("expected a still picture"),
    }
}

#[test]
fn download_of_animation() {
    match symmetrize_download(Some(gif_bytes()), "前") {
        Some(Ok(Image::Dynamic(frames))) => {
            let delays: Vec<(u32, u32)> = frames.iter().map(|f| f.delay.numer_denom_ms()).collect();
            assert_eq!(delays, vec![(100, 1), (50, 1), (50, 1), (100, 1)]);
        },
        _ => panic!("expected an animation"),
    }
}

#[test]
fn download_of_unreadable_bytes_aborts() {
    assert!(symmetrize_download(Some(vec![9, 9, 9]), "左").is_none());
}

#[test]
fn failure_reply_text() {
    assert_eq!(failure_reply("未能识别到图片"), "对称失败: 未能识别到图片");
    assert_eq!(failure_reply(""), "对称失败: ");
}

fn crc32(bytes: &[u8]) -> u32 {
    let mut crc = 0xffff_ffffu32;
    for &b in bytes {
        crc ^= b as u32;
        for _ in 0..8 {
            crc = if crc & 1 != 0 { (crc >> 1) ^ 0xedb8_8320 } else { crc >> 1 };
        }
    }
    !crc
}

fn png_chunk(out: &mut Vec<u8>, kind: &[u8; 4], data: &[u8]) {
    out.extend_from_slice(&(data.len() as u32).to_be_bytes());
    let mut body = kind.to_vec();
    body.extend_from_slice(data);
    out.extend_from_slice(&body);
    out.extend_from_slice(&crc32(&body).to_be_bytes());
}

/// A one-frame animated PNG of a single red pixel shown for 1/4 second.
fn apng_bytes() -> Vec<u8> {
    let mut out = b"\x89PNG\r\n\x1a\n".to_vec();
    png_chunk(&mut out, b"IHDR", &[0, 0, 0, 1, 0, 0, 0, 1, 8, 6, 0, 0, 0]);
    png_chunk(&mut out, b"acTL", &[0, 0, 0, 1, 0, 0, 0, 0]);
    let mut fctl = vec![0, 0, 0, 0, 0, 0, 0, 1, 0, 0, 0, 1, 0, 0, 0, 0, 0, 0, 0, 0];
    fctl.extend_from_slice(&[0, 1, 0, 4, 0, 0]);
    png_chunk(&mut out, b"fcTL", &fctl);
    let raw = [0u8, 255, 0, 0, 255];
    let (mut a, mut b) = (1u32, 0u32);
    for &x in &raw {
        a = (a + x as u32) % 65521;
        b = (b + a) % 65521;
    }
    let mut zlib = vec![0x78, 0x01, 0x01, 0x05, 0x00, 0xfa, 0xff];
    zlib.extend_from_slice(&raw);
    zlib.extend_from_slice(&((b << 16) | a).to_be_bytes());
    png_chunk(&mut out, b"IDAT", &zlib);
    png_chunk(&mut out, b"IEND", &[]);
    out
}

fn webp_still_bytes() -> Vec<u8> {
    let img = RgbaImage::from_raw(1, 1, vec![0, 255, 0, 255]).unwrap();
    let mut buf = Vec::new();
    img.write_to(&mut Cursor::new(&mut buf), ImageFormat::WebP).unwrap();
    buf
}

fn riff_chunk(out: &mut Vec<u8>, kind: &[u8; 4], data: &[u8]) {
    out.extend_from_slice(kind);
    out.extend_from_slice(&(data.len() as u32).to_le_bytes());
    out.extend_from_slice(data);
    if data.len() % 2 == 1 {
        out.push(0);
    }
}

/// An animated WebP file of two frames, each the still picture above,
/// shown for 70 ms and drawn without blending.
fn webp_animated_bytes() -> Vec<u8> {
    let still = webp_still_bytes();
    let image_chunk = still[12..].to_vec();
    let mut body = b"WEBP".to_vec();
    riff_chunk(&mut body, b"VP8X", &[0x12, 0, 0, 0, 0, 0, 0, 0, 0, 0]);
    riff_chunk(&mut body, b"ANIM", &[0, 0, 0, 0, 0, 0]);
    for _ in 0..2 {
        let mut frame = vec![0, 0, 0, 0, 0, 0, 0, 0, 0, 0, 0, 0, 70, 0, 0, 2];
        frame.extend_from_slice(&image_chunk);
        riff_chunk(&mut body, b"ANMF", &frame);
    }
    let mut out = b"RIFF".to_vec();
    out.extend_from_slice(&(body.len() as u32).to_le_bytes());
    out.extend_from_slice(&body);
    out
}

#[test]
fn apng_animation_frames() {
    match dispatch(&apng_bytes()) {
        Some(Ok(Image::Dynamic(frames))) => {
            assert_eq!(frames.len(), 1);
            assert_eq!(frames[0].buffer.as_raw(), &vec![255, 0, 0, 255]);
            assert_eq!(frames[0].delay.nanos(), 250_000_000);
        },
        _ => panic!("expected an animation"),
    }
}

#[test]
fn webp_still_picture() {
    match dispatch(&webp_still_bytes()) {
        Some(Ok(Image::Static(b))) => assert_eq!(b.as_raw(), &vec![0, 255, 0, 255]),
        _ => panic!("expected a still picture"),
    }
}

#[test]
fn webp_animation_frames() {
    match dispatch(&webp_animated_bytes()) {
        Some(Ok(Image::Dynamic(frames))) => {
            assert_eq!(frames.len(), 2);
            assert_eq!(frames[1].buffer.as_raw(), &vec![0, 255, 0, 255]);
            assert_eq!(frames[0].delay.nanos(), 70_000_000);
        },
        _ => panic!("expected an animation"),
    }
}

#[test]
fn other_formats_decode_as_still_pictures() {
    let img = RgbaImage::from_raw(2, 1, vec![10, 20, 30, 255, 40, 50, 60, 255]).unwrap();
    let mut buf = Vec::new();
    img.write_to(&mut Cursor::new(&mut buf), ImageFormat::Bmp).unwrap();
    match dispatch(&buf) {
        Some(Ok(Image::Static(b))) => {
            assert_eq!((b.width(), b.height()), (2, 1));
            assert_eq!(b.as_raw(), &vec![10, 20, 30, 255, 40, 50, 60, 255]);
        },
        _ => panic!("expected a still picture"),
    }
    match symmetrize_download(Some(buf), "左") {
        Some(Ok(Image::Static(b))) => assert_eq!(b.as_raw(), &vec![10, 20, 30, 255, 10, 20, 30, 255]),
        _ => panic!("expected a still picture"),
    }
}

#[test]
fn encoded_still_picture_decodes_back() {
    let mut data = vec![1, 2, 3, 255, 4, 5, 6, 255];
    data.extend_from_slice(&[9, 9]);
    let picture = Image::Static(RgbaBuffer::from_raw(2, 1, data).unwrap());
    assert_eq!(file_extension(&picture), "png");
    let bytes = encode_image(&picture).unwrap();
    assert_eq!(&bytes[0..4], b"\x89PNG");
    match dispatch(&bytes) {
        Some(Ok(Image::Static(b))) => assert_eq!(b.as_raw(), &vec![1, 2, 3, 255, 4, 5, 6, 255]),
        _ => panic!("expected a still picture"),
    }
}

#[test]
fn encoded_animation_decodes_back() {
    let frames = match dispatch(&gif_bytes()) {
        Some(Ok(Image::Dynamic(frames))) => frames,
        _ => panic!("expected an animation"),
    };
    let animation = Image::Dynamic(frames);
    assert_eq!(file_extension(&animation), "gif");
    let bytes = encode_image(&animation).unwrap();
    assert_eq!(&bytes[0..3], b"GIF");
    match dispatch(&bytes) {
        Some(Ok(Image::Dynamic(back))) => {
            assert_eq!(back.len(), 3);
            assert_eq!(back[2].delay.nanos(), 100_000_000);
            assert_eq!(&back[1].buffer.as_raw()[0..4], &[0, 0, 255, 255]);
        },
        _ => panic!("expected an animation"),
    }
}

#[test]
fn frames_stop_at_first_error() {
    let frame = |red: u8| {
        kovi_plugins::animation::AnimFrame::assemble(1, 1, vec![red, 0, 0, 255], 0, 0, (10, 1))
    };
    let results = vec![Ok(frame(1)), Ok(frame(2)), Err("bad".to_string()), Ok(frame(4))];
    let kept = frames_before_first_error(results);
    assert_eq!(kept.len(), 2);
    assert_eq!(kept[1].buffer.as_raw()[0], 2);
    assert!(frames_before_first_error(vec![Err("bad".to_string()), Ok(frame(1))]).is_empty());
    assert_eq!(frames_before_first_error(vec![Ok(frame(7))]).len(), 1);
}
