use base64::Engine;
use std::io::Write;
use wallpaper_slideshow::geometry::{compute_frame, RenderFrame};
use wallpaper_slideshow::render::{cleanup, encode_kitty_frames, render_image, render_wallpaper};
use wallpaper_slideshow::WallpaperError;

const ESC: u8 = 0x1b;

/// Splits a byte stream into the escape units introduced by `ESC _G`.
fn graphics_units(stream: &[u8]) -> Vec<Vec<u8>> {
    let mut units = Vec::new();
    let mut i = 0;
    while i + 2 < stream.len() {
        if stream[i] == ESC && stream[i + 1] == b'_' && stream[i + 2] == b'G' {
            let mut j = i + 3;
            while j + 1 < stream.len() && !(stream[j] == ESC && stream[j + 1] == b'\\') {
                j += 1;
            }
            units.push(stream[i..j + 2].to_vec());
            i = j + 2;
        } else {
            i += 1;
        }
    }
    units
}

#[test]
fn payload_of_8192_makes_exactly_two_chunks() {
    let payload = vec![b'A'; 8192];
    let out = encode_kitty_frames(&payload, 10, 20, 4, 2, 1, 1, false);
    let units = graphics_units(&out);
    // The delete control, the first chunk, one continuation.
    assert_eq!(units.len(), 3);
    let first = String::from_utf8(units[1].clone()).unwrap();
    assert!(first.starts_with("\x1b_Ga=T,f=32,t=d,m=1,q=2,o=z,s=10,v=20,c=4,r=2;"));
    assert_eq!(units[1].len(), 46 + 4096 + 2);
    let second = String::from_utf8(units[2].clone()).unwrap();
    assert!(second.starts_with("\x1b_Gm=0;"));
    assert_eq!(units[2].len(), 7 + 4096 + 2);
}

#[test]
fn payload_of_4096_is_a_single_final_chunk() {
    let payload = vec![b'B'; 4096];
    let out = encode_kitty_frames(&payload, 1, 1, 1, 1, 1, 1, false);
    let units = graphics_units(&out);
    assert_eq!(units.len(), 2);
    let first = String::from_utf8(units[1].clone()).unwrap();
    assert!(first.contains(",m=0,"));
}

#[test]
fn payload_of_8193_makes_three_chunks_with_a_short_tail() {
    let payload = vec![b'C'; 8193];
    let out = encode_kitty_frames(&payload, 1, 1, 1, 1, 1, 1, false);
    let units = graphics_units(&out);
    assert_eq!(units.len(), 4);
    let second = String::from_utf8(units[2].clone()).unwrap();
    assert!(second.starts_with("\x1b_Gm=1;"));
    assert_eq!(units[2].len(), 7 + 4096 + 2);
    let third = String::from_utf8(units[3].clone()).unwrap();
    assert!(third.starts_with("\x1b_Gm=0;"));
    assert_eq!(units[3].len(), 7 + 1 + 2);
}

#[test]
fn cursor_and_delete_lead_the_stream() {
    let payload = vec![b'D'; 4];
    let out = encode_kitty_frames(&payload, 2, 3, 4, 5, 7, 9, false);
    let mut expected = b"\x1b_Ga=d,d=A,q=2\x1b\\".to_vec();
    expected.extend_from_slice(b"\x1b[9;7H");
    expected.extend_from_slice(b"\x1b_Ga=T,f=32,t=d,m=0,q=2,o=z,s=2,v=3,c=4,r=5;DDDD\x1b\\");
    assert_eq!(out, expected);
}

#[test]
fn cleanup_plain_and_under_tmux() {
    assert_eq!(cleanup(false), b"\x1b_Ga=d,d=A,q=2\x1b\\".to_vec());
    let mut expected = b"\x1bPtmux;".to_vec();
    expected.extend_from_slice(b"\x1b\x1b_Ga=d,d=A,q=2\x1b\x1b\\");
    expected.extend_from_slice(b"\x1b\\");
    assert_eq!(cleanup(true), expected);
}

#[test]
fn passthrough_doubles_escapes_inside_the_payload() {
    let payload = vec![ESC, b'x'];
    let out = encode_kitty_frames(&payload, 1, 1, 1, 1, 1, 1, true);
    // Inside tmux every unit is enveloped; the payload's own escape
    // byte is doubled within its frame.
    let text = out.clone();
    let needle: &[u8] = b";\x1b\x1bx\x1b\x1b\\";
    assert!(text.windows(needle.len()).any(|w| w == needle));
    assert!(out.starts_with(b"\x1bPtmux;"));
}

#[test]
fn rendered_image_carries_the_compressed_rgba_payload() {
    let img = image::DynamicImage::ImageRgba8(image::RgbaImage::from_pixel(
        4,
        4,
        image::Rgba([9, 8, 7, 255]),
    ));
    let fr = RenderFrame { target_w: 4, target_h: 4, cells_w: 2, cells_h: 1, col: 5, row: 3 };
    let out = render_image(&img, fr, false);

    let mut rgba = Vec::new();
    for _ in 0..16 {
        rgba.extend_from_slice(&[9u8, 8, 7, 255]);
    }
    let mut enc = flate2::write::ZlibEncoder::new(Vec::new(), flate2::Compression::new(6));
    enc.write_all(&rgba).unwrap();
    let compressed = enc.finish().unwrap();
    let payload = base64::engine::general_purpose::STANDARD.encode(&compressed).into_bytes();
    let expected = encode_kitty_frames(&payload, 4, 4, 2, 1, 5, 3, false);
    assert_eq!(out, expected);
}

#[test]
fn undecodable_bytes_report_decode_failure() {
    let junk = vec![1u8, 2, 3, 4, 5];
    match render_wallpaper(&junk, 80, 24, 1920, 1080, 80, 24, 12, false) {
        Err(WallpaperError::DecodeFailure) => {},
        _ => panic!("junk bytes must fail to decode"),
    }
}

#[test]
fn decodable_bytes_render_frames() {
    let img = image::DynamicImage::ImageRgb8(image::RgbImage::from_pixel(
        8,
        8,
        image::Rgb([10, 20, 30]),
    ));
    let mut png = std::io::Cursor::new(Vec::new());
    img.write_to(&mut png, image::ImageFormat::Png).unwrap();
    let bytes = png.into_inner();
    let (pal, fr, dims, frames) =
        render_wallpaper(&bytes, 80, 24, 1920, 1080, 80, 24, 12, false).expect("decodes");
    assert_eq!(dims, (8, 8));
    assert!(fr.cells_w <= 80);
    assert!(fr.cells_h <= 11);
    assert!(frames.starts_with(b"\x1b_Ga=d,d=A,q=2\x1b\\"));
    // A uniform dark blue-grey image: the background role is dark.
    assert!(pal.background.r < 128 && pal.background.g < 128 && pal.background.b < 128);
}

#[test]
fn frame_fits_the_grid_and_centres() {
    let fr = compute_frame(80, 24, 1920, 1080, 80, 24, 3000, 2000, 12);
    assert_eq!((fr.target_w, fr.target_h), (742, 495));
    assert_eq!((fr.cells_w, fr.cells_h), (31, 11));
    assert_eq!((fr.col, fr.row), (25, 1));
}

#[test]
fn tall_image_is_bounded_by_height() {
    let fr = compute_frame(100, 50, 1000, 1000, 100, 50, 100, 1000, 12);
    // Available: 1000 px wide, 37 rows at 20 px = 740 px tall.
    assert_eq!(fr.target_h, 740);
    assert_eq!(fr.target_w, 74);
    assert!(fr.cells_w <= 100);
    assert!(fr.cells_h <= 37);
}

#[test]
fn tiny_terminal_still_fits() {
    let fr = compute_frame(10, 8, 100, 80, 10, 8, 640, 480, 6);
    assert!(fr.cells_w <= 10);
    assert!(fr.cells_h <= 1);
    assert!(fr.col >= 1 && fr.row >= 1);
}
