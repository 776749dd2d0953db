//! The terminal graphics frames: compression, text encoding, chunked
//! escape sequences, and the multiplexer passthrough.
//!
//! A picture leaves this module as one byte sequence: a delete-previous
//! control, a cursor move, then the transmit-and-display sequence whose
//! base64 payload is split into 4096-character chunks, every chunk but
//! the last flagged as continued.  Inside a terminal multiplexer every
//! escape sequence is wrapped in the passthrough envelope, with literal
//! escape bytes doubled.
//!
//! The compression, the base64 text, and the picture operations come
//! from outside crates behind trusted wrappers; each result is a
//! function of its inputs alone and is named ([`zlib_of`], [`b64_of`],
//! [`decoded_img`], [`resized_of`], [`rgba_of`], the dimension
//! accessors), so the callers' contracts are exact.  Everything after
//! them — chunking, framing, passthrough — is verified byte
//! arithmetic.

use crate::numfmt::{dec_bytes, push_dec_u64};
use crate::WallpaperError;
use base64::Engine;
use vstd::prelude::*;

verus! {

/// The passthrough body: every escape byte doubled.
pub open spec fn double_escs(s: Seq<u8>) -> Seq<u8>
    decreases s.len(),
{
    if s.len() == 0 {
        s
    } else {
        double_escs(s.drop_last()) + (if s.last() == 27 {
            seq![27u8, 27u8]
        } else {
            seq![s.last()]
        })
    }
}

/// The multiplexer passthrough envelope around one escape sequence.
pub open spec fn passthrough(inner: Seq<u8>) -> Seq<u8> {
    seq![27u8, 80u8, 116u8, 109u8, 117u8, 120u8, 59u8] + double_escs(inner) + seq![27u8, 92u8]
}

/// An escape sequence as the terminal must receive it: enveloped under
/// a multiplexer, bare otherwise.
pub open spec fn wrapped(inner: Seq<u8>, tmux: bool) -> Seq<u8> {
    if tmux {
        passthrough(inner)
    } else {
        inner
    }
}

/// The delete-previous-image control sequence.
pub open spec fn delete_seq() -> Seq<u8> {
    seq![27u8, 95u8, 71u8, 97u8, 61u8, 100u8, 44u8, 100u8, 61u8, 65u8, 44u8, 113u8, 61u8, 50u8, 27u8, 92u8]
}

/// The cursor-positioning sequence (not itself enveloped: the
/// multiplexer passes it through).
pub open spec fn cursor_seq(row: int, col: int) -> Seq<u8> {
    seq![27u8, 91u8] + dec_bytes(row) + seq![59u8] + dec_bytes(col) + seq![72u8]
}

/// Where the chunk that starts at `i` ends: 4096 characters, or the
/// payload's end.
pub open spec fn chunk_end(len: int, i: int) -> int {
    if len - i > 4096 {
        i + 4096
    } else {
        len
    }
}

/// The continued-transfer flag byte.
pub open spec fn flag_byte(more: bool) -> u8 {
    if more {
        49u8
    } else {
        48u8
    }
}

/// The transmit-and-display sequence carrying the first chunk: format
/// and placement fields, the more-follows flag, then the chunk.
pub open spec fn first_frame(payload: Seq<u8>, w: int, h: int, cw: int, ch: int) -> Seq<u8> {
    let e = chunk_end(payload.len() as int, 0);
    seq![27u8, 95u8, 71u8, 97u8, 61u8, 84u8, 44u8, 102u8, 61u8, 51u8, 50u8, 44u8, 116u8, 61u8, 100u8, 44u8, 109u8, 61u8]
        + seq![flag_byte(e < payload.len())] + seq![44u8, 113u8, 61u8, 50u8, 44u8, 111u8, 61u8, 122u8, 44u8, 115u8, 61u8]
        + dec_bytes(w) + seq![44u8, 118u8, 61u8] + dec_bytes(h) + seq![44u8, 99u8, 61u8] + dec_bytes(
        cw,
    ) + seq![44u8, 114u8, 61u8] + dec_bytes(ch) + seq![59u8] + payload.subrange(0, e) + seq![
        27u8,
        92u8,
    ]
}

/// One continuation sequence: the more-follows flag and its chunk.
pub open spec fn cont_frame(chunk: Seq<u8>, more: bool) -> Seq<u8> {
    seq![27u8, 95u8, 71u8, 109u8, 61u8] + seq![flag_byte(more)] + seq![59u8] + chunk + seq![
        27u8,
        92u8,
    ]
}

/// All continuation sequences from offset `i` on, each enveloped as
/// the terminal requires.
pub open spec fn cont_frames(payload: Seq<u8>, i: int, tmux: bool) -> Seq<u8>
    decreases payload.len() - i,
{
    if i < 0 || i >= payload.len() {
        Seq::empty()
    } else {
        let e = chunk_end(payload.len() as int, i);
        wrapped(cont_frame(payload.subrange(i, e), e < payload.len()), tmux) + cont_frames(
            payload,
            e,
            tmux,
        )
    }
}

/// The full graphics emission for one picture: delete the previous
/// image, move the cursor, then the chunked transfer.
pub open spec fn kitty_render(
    payload: Seq<u8>,
    w: int,
    h: int,
    cw: int,
    ch: int,
    col: int,
    row: int,
    tmux: bool,
) -> Seq<u8> {
    wrapped(delete_seq(), tmux) + cursor_seq(row, col) + wrapped(
        first_frame(payload, w, h, cw, ch),
        tmux,
    ) + cont_frames(payload, chunk_end(payload.len() as int, 0), tmux)
}

/// Appends a range of `src`.
fn push_range(out: &mut Vec<u8>, src: &Vec<u8>, start: usize, end: usize)
    requires
        start <= end <= src@.len(),
    ensures
        final(out)@ == old(out)@ + src@.subrange(start as int, end as int),
{
    let mut i: usize = start;
    while i < end
        invariant
            start <= i <= end <= src@.len(),
            out@ == old(out)@ + src@.subrange(start as int, i as int),
        decreases end - i,
    {
        let b = src[i];
        out.push(b);
        proof {
            assert(src@.subrange(start as int, i + 1) =~= src@.subrange(start as int, i as int)
                + seq![src@[i as int]]);
            assert(out@ =~= old(out)@ + src@.subrange(start as int, i + 1));
        }
        i += 1;
    }
}

/// Appends one escape sequence as the terminal must receive it: under
/// a multiplexer, enveloped with every escape byte doubled.
fn push_wrapped(out: &mut Vec<u8>, inner: &Vec<u8>, tmux: bool)
    ensures
        final(out)@ == old(out)@ + wrapped(inner@, tmux),
{
    if tmux {
        out.push(27);
        out.push(80u8);
        out.push(116u8);
        out.push(109u8);
        out.push(117u8);
        out.push(120u8);
        out.push(59u8);
        let ghost head = old(out)@ + seq![27u8, 80u8, 116u8, 109u8, 117u8, 120u8, 59u8];
        proof {
            assert(out@ =~= head);
            assert(double_escs(inner@.take(0)) =~= Seq::<u8>::empty());
            assert(out@ =~= head + double_escs(inner@.take(0)));
        }
        let mut i: usize = 0;
        while i < inner.len()
            invariant
                i <= inner@.len(),
                out@ == head + double_escs(inner@.take(i as int)),
            decreases inner@.len() - i,
        {
            let b = inner[i];
            if b == 27 {
                out.push(27);
                out.push(27);
            } else {
                out.push(b);
            }
            proof {
                assert(inner@.take(i + 1).drop_last() =~= inner@.take(i as int));
                assert(inner@.take(i + 1).last() == inner@[i as int]);
                assert(out@ =~= head + double_escs(inner@.take(i + 1)));
            }
            i += 1;
        }
        out.push(27);
        out.push(92u8);
        proof {
            assert(inner@.take(inner@.len() as int) =~= inner@);
            assert(out@ =~= old(out)@ + passthrough(inner@));
        }
    } else {
        push_range(out, inner, 0, inner.len());
        proof {
            assert(inner@.subrange(0, inner@.len() as int) =~= inner@);
        }
    }
}

/// The delete-previous-image emission, enveloped when under a
/// multiplexer.  The viewer sends it before each picture and once more
/// on exit, so no stale graphics survive.
#[verifier::rlimit(30)]
pub fn cleanup(is_tmux: bool) -> (r: Vec<u8>)
    ensures
        r@ == wrapped(delete_seq(), is_tmux),
{
    let mut inner: Vec<u8> = Vec::new();
    inner.push(27);
    inner.push(95u8);
    inner.push(71u8);
    inner.push(97u8);
    inner.push(61u8);
    inner.push(100u8);
    inner.push(44u8);
    inner.push(100u8);
    inner.push(61u8);
    inner.push(65u8);
    inner.push(44u8);
    inner.push(113u8);
    inner.push(61u8);
    inner.push(50u8);
    inner.push(27);
    inner.push(92u8);
    proof {
        assert(inner@ =~= delete_seq());
    }
    let mut out: Vec<u8> = Vec::new();
    push_wrapped(&mut out, &inner, is_tmux);
    out
}

/// Builds the first-chunk transmit sequence, unenveloped.
#[verifier::rlimit(60)]
fn build_first_frame(payload: &Vec<u8>, w: u32, h: u32, cw: u16, ch: u16) -> (r: Vec<u8>)
    ensures
        r@ == first_frame(payload@, w as int, h as int, cw as int, ch as int),
{
    let len = payload.len();
    let e: usize = if len > 4096 {
        4096
    } else {
        len
    };
    let more = e < len;
    let mut f: Vec<u8> = Vec::new();
    f.push(27);
    f.push(95u8);
    f.push(71u8);
    f.push(97u8);
    f.push(61u8);
    f.push(84u8);
    f.push(44u8);
    f.push(102u8);
    f.push(61u8);
    f.push(51u8);
    f.push(50u8);
    f.push(44u8);
    f.push(116u8);
    f.push(61u8);
    f.push(100u8);
    f.push(44u8);
    f.push(109u8);
    f.push(61u8);
    f.push(if more {
        49u8
    } else {
        48u8
    });
    f.push(44u8);
    f.push(113u8);
    f.push(61u8);
    f.push(50u8);
    f.push(44u8);
    f.push(111u8);
    f.push(61u8);
    f.push(122u8);
    f.push(44u8);
    f.push(115u8);
    f.push(61u8);
    push_dec_u64(&mut f, w as u64);
    f.push(44u8);
    f.push(118u8);
    f.push(61u8);
    push_dec_u64(&mut f, h as u64);
    f.push(44u8);
    f.push(99u8);
    f.push(61u8);
    push_dec_u64(&mut f, cw as u64);
    f.push(44u8);
    f.push(114u8);
    f.push(61u8);
    push_dec_u64(&mut f, ch as u64);
    f.push(59u8);
    push_range(&mut f, payload, 0, e);
    f.push(27);
    f.push(92u8);
    proof {
        assert(e == chunk_end(payload@.len() as int, 0));
        assert(f@ =~= first_frame(payload@, w as int, h as int, cw as int, ch as int));
    }
    f
}

/// Builds one continuation sequence, unenveloped.
fn build_cont_frame(payload: &Vec<u8>, start: usize, end: usize, more: bool) -> (r: Vec<u8>)
    requires
        start <= end <= payload@.len(),
    ensures
        r@ == cont_frame(payload@.subrange(start as int, end as int), more),
{
    let mut f: Vec<u8> = Vec::new();
    f.push(27);
    f.push(95u8);
    f.push(71u8);
    f.push(109u8);
    f.push(61u8);
    f.push(if more {
        49u8
    } else {
        48u8
    });
    f.push(59u8);
    push_range(&mut f, payload, start, end);
    f.push(27);
    f.push(92u8);
    proof {
        assert(f@ =~= cont_frame(payload@.subrange(start as int, end as int), more));
    }
    f
}

/// Emits the full graphics sequence for an encoded payload: delete the
/// previous image, position the cursor, then transmit the payload in
/// 4096-character chunks, each escape sequence enveloped when under a
/// multiplexer, every chunk but the last flagged as continued.
pub fn encode_kitty_frames(
    payload: &Vec<u8>,
    width: u32,
    height: u32,
    cells_w: u16,
    cells_h: u16,
    col: u16,
    row: u16,
    is_tmux: bool,
) -> (r: Vec<u8>)
    ensures
        r@ == kitty_render(
            payload@,
            width as int,
            height as int,
            cells_w as int,
            cells_h as int,
            col as int,
            row as int,
            is_tmux,
        ),
{
    let mut out = cleanup(is_tmux);
    out.push(27);
    out.push(91u8);
    push_dec_u64(&mut out, row as u64);
    out.push(59u8);
    push_dec_u64(&mut out, col as u64);
    out.push(72u8);
    let ghost pre_cursor = wrapped(delete_seq(), is_tmux) + cursor_seq(row as int, col as int);
    proof {
        assert(out@ =~= pre_cursor);
    }
    let ff = build_first_frame(payload, width, height, cells_w, cells_h);
    push_wrapped(&mut out, &ff, is_tmux);
    let len = payload.len();
    let mut i: usize = if len > 4096 {
        4096
    } else {
        len
    };
    let ghost goal = kitty_render(
        payload@,
        width as int,
        height as int,
        cells_w as int,
        cells_h as int,
        col as int,
        row as int,
        is_tmux,
    );
    proof {
        assert(i == chunk_end(payload@.len() as int, 0));
        assert(goal =~= out@ + cont_frames(payload@, i as int, is_tmux));
    }
    while i < len
        invariant
            i <= len,
            len == payload@.len(),
            goal == out@ + cont_frames(payload@, i as int, is_tmux),
        decreases len - i,
    {
        let e: usize = if len - i > 4096 {
            i + 4096
        } else {
            len
        };
        let more = e < len;
        let cf = build_cont_frame(payload, i, e, more);
        push_wrapped(&mut out, &cf, is_tmux);
        proof {
            assert(e == chunk_end(payload@.len() as int, i as int));
            assert(cont_frames(payload@, i as int, is_tmux) == wrapped(
                cont_frame(payload@.subrange(i as int, e as int), e < payload@.len()),
                is_tmux,
            ) + cont_frames(payload@, e as int, is_tmux));
        }
        i = e;
    }
    proof {
        assert(cont_frames(payload@, i as int, is_tmux) =~= Seq::<u8>::empty());
        assert(out@ =~= goal);
    }
    out
}

// A decoded picture is image's DynamicImage, declared opaque: the
// library reads it only through the wrappers below, whose results are
// all functions of the picture (and plain bounds) alone, so each is
// named.
#[verifier::external_type_specification]
#[verifier::external_body]
pub struct ExDynamicImage(image::DynamicImage);

// Whether the format-guessing reader decodes these bytes at all: the
// outcome depends on the bytes alone.
pub uninterp spec fn decode_ok(bytes: Seq<u8>) -> bool;

// The picture those bytes decode to, when they do.
pub uninterp spec fn decoded_img(bytes: Seq<u8>) -> image::DynamicImage;

// The width accessor of a picture.
pub uninterp spec fn img_width(img: image::DynamicImage) -> u32;

// The height accessor of a picture.
pub uninterp spec fn img_height(img: image::DynamicImage) -> u32;

// What resize with the Lanczos3 filter returns for these bounds.
pub uninterp spec fn resized_of(img: image::DynamicImage, w: u32, h: u32) -> image::DynamicImage;

// The RGBA byte buffer of a picture, row-major, four bytes per pixel.
pub uninterp spec fn rgba_of(img: image::DynamicImage) -> Seq<u8>;

// The zlib stream of a byte sequence at the fixed level: a function of
// the bytes alone, named rather than spelled out.
pub uninterp spec fn zlib_of(data: Seq<u8>) -> Seq<u8>;

// The standard padded base64 text of a byte sequence, likewise named.
pub uninterp spec fn b64_of(data: Seq<u8>) -> Seq<u8>;

/// Relies on flate2's ZlibEncoder at fixed level 6 writing into a
/// `Vec`, which cannot fail: the compressed stream is a function of
/// the input bytes alone.
#[verifier::external_body]
fn zlib_compress(data: &Vec<u8>) -> (r: Vec<u8>)
    ensures
        r@ == zlib_of(data@),
{
    let mut enc = flate2::write::ZlibEncoder::new(Vec::new(), flate2::Compression::new(6));
    let _ = std::io::Write::write_all(&mut enc, data.as_slice());
    match enc.finish() {
        Ok(v) => v,
        Err(_) => Vec::new(),
    }
}

/// Relies on base64's standard alphabet with padding: the text is a
/// function of the bytes alone, four characters for every three-byte
/// group, the last one padded.
#[verifier::external_body]
fn b64_encode(data: &Vec<u8>) -> (r: Vec<u8>)
    ensures
        r@ == b64_of(data@),
        r@.len() == 4 * ((data@.len() + 2) / 3),
{
    base64::engine::general_purpose::STANDARD.encode(data).into_bytes()
}

/// Relies on image's format-guessing reader: whether and what these
/// bytes decode to depends on the bytes alone, so both are named.
#[verifier::external_body]
fn decode_image(bytes: &Vec<u8>) -> (r: Result<image::DynamicImage, WallpaperError>)
    ensures
        r is Ok <==> decode_ok(bytes@),
        r is Ok ==> r->Ok_0 == decoded_img(bytes@),
        r is Err ==> r->Err_0 == WallpaperError::DecodeFailure,
{
    match image::ImageReader::new(std::io::Cursor::new(bytes.as_slice())).with_guessed_format() {
        Ok(rd) => match rd.decode() {
            Ok(i) => Ok(i),
            Err(_) => Err(WallpaperError::DecodeFailure),
        },
        Err(_) => Err(WallpaperError::DecodeFailure),
    }
}

/// Relies on image's width and height accessors, named so that
/// callers can speak of them.
#[verifier::external_body]
fn image_dims(img: &image::DynamicImage) -> (r: (u32, u32))
    ensures
        r.0 == img_width(*img),
        r.1 == img_height(*img),
{
    (img.width(), img.height())
}

/// Relies on image's resize with the Lanczos3 filter, the
/// high-quality final resampling: the result depends on the picture
/// and the bounds alone, so it is named; its own dimensions are read
/// back through the accessors.
#[verifier::external_body]
fn resize_lanczos(img: &image::DynamicImage, w: u32, h: u32) -> (r: image::DynamicImage)
    ensures
        r == resized_of(*img, w, h),
{
    img.resize(w, h, image::imageops::FilterType::Lanczos3)
}

/// Relies on image's RGBA conversion: it keeps the picture's
/// dimensions, its buffer holds four bytes per pixel, and the bytes
/// depend on the picture alone.
#[verifier::external_body]
fn rgba_data(img: &image::DynamicImage) -> (r: (u32, u32, Vec<u8>))
    ensures
        r.0 == img_width(*img),
        r.1 == img_height(*img),
        r.2@ == rgba_of(*img),
        r.2@.len() == 4 * (r.0 as int) * (r.1 as int),
{
    let rgba = img.to_rgba8();
    let (w, h) = (rgba.width(), rgba.height());
    (w, h, rgba.into_raw())
}

/// Turns one photo's bytes into everything the viewer draws: decodes
/// them, derives the colour theme, fits the picture to the terminal,
/// and emits the graphics frames.  It succeeds exactly when the bytes
/// decode to a picture with at least one pixel each way; otherwise it
/// reports a decode failure.
#[verifier::rlimit(60)]
#[verifier::spinoff_prover]
pub fn render_wallpaper(
    bytes: &Vec<u8>,
    term_w: u16,
    term_h: u16,
    win_px_w: u16,
    win_px_h: u16,
    win_cols: u16,
    win_rows: u16,
    panel_h: u16,
    is_tmux: bool,
) -> (r: Result<(crate::color::ColorPalette, crate::geometry::RenderFrame, (u32, u32), Vec<u8>),
    WallpaperError,
>)
    requires
        win_px_w >= 1,
        win_px_h >= 1,
        win_cols >= 1,
        win_rows >= 1,
    ensures
        r is Ok <==> decode_ok(bytes@) && img_width(decoded_img(bytes@)) >= 1 && img_height(
            decoded_img(bytes@),
        ) >= 1,
        r is Err ==> r->Err_0 == WallpaperError::DecodeFailure,
        match r {
            Ok(out) => {
                let img = decoded_img(bytes@);
                let iw = img_width(img);
                let ih = img_height(img);
                let aw = crate::geometry::avail_px_w(term_w as int, win_px_w as int, win_cols as int);
                let ah = crate::geometry::avail_px_h(
                    term_h as int,
                    panel_h as int,
                    win_px_h as int,
                    win_rows as int,
                );
                let area = crate::geometry::image_area_rows(term_h as int, panel_h as int);
                let scaled = resized_of(img, out.1.target_w, out.1.target_h);
                &&& out.2 == (iw, ih)
                &&& (out.1.target_w as int, out.1.target_h as int) == crate::geometry::fit_dims(
                    aw,
                    ah,
                    iw as int,
                    ih as int,
                )
                &&& out.1.cells_w == crate::geometry::cells_for(
                    out.1.target_w as int,
                    win_cols as int,
                    win_px_w as int,
                )
                &&& out.1.cells_h == crate::geometry::cells_for(
                    out.1.target_h as int,
                    win_rows as int,
                    win_px_h as int,
                )
                &&& out.1.cells_w <= term_w
                &&& out.1.cells_h <= area
                &&& out.1.col == (term_w - out.1.cells_w) / 2 + 1
                &&& out.1.row == (area - out.1.cells_h) / 2 + 1
                &&& crate::palette::palette_describes(crate::palette::downscaled_of(img), out.0)
                &&& out.3@ == kitty_render(
                    b64_of(zlib_of(rgba_of(scaled))),
                    img_width(scaled) as int,
                    img_height(scaled) as int,
                    out.1.cells_w as int,
                    out.1.cells_h as int,
                    out.1.col as int,
                    out.1.row as int,
                    is_tmux,
                )
            },
            Err(_) => true,
        },
{
    let img = match decode_image(bytes) {
        Ok(i) => i,
        Err(_) => {
            return Err(WallpaperError::DecodeFailure);
        },
    };
    let (w, h) = image_dims(&img);
    if w == 0 || h == 0 {
        return Err(WallpaperError::DecodeFailure);
    }
    let fr = crate::geometry::compute_frame(
        term_w,
        term_h,
        win_px_w,
        win_px_h,
        win_cols,
        win_rows,
        w,
        h,
        panel_h,
    );
    let pal = crate::palette::extract_palette(&img);
    let frames = render_image(&img, fr, is_tmux);
    Ok((pal, fr, (w, h), frames))
}

/// Scales a decoded photo into its frame and emits the full graphics
/// sequence for it: the payload is the base64 text of the zlib stream
/// of the resized picture's RGBA bytes, framed under the resized
/// picture's own dimensions, chunked and enveloped as [`kitty_render`]
/// lays down.
pub fn render_image(img: &image::DynamicImage, fr: crate::geometry::RenderFrame, is_tmux: bool) -> (
    r: Vec<u8>)
    ensures
        ({
            let scaled = resized_of(*img, fr.target_w, fr.target_h);
            &&& r@ == kitty_render(
                b64_of(zlib_of(rgba_of(scaled))),
                img_width(scaled) as int,
                img_height(scaled) as int,
                fr.cells_w as int,
                fr.cells_h as int,
                fr.col as int,
                fr.row as int,
                is_tmux,
            )
            &&& rgba_of(scaled).len() == 4 * (img_width(scaled) as int) * (
            img_height(scaled) as int)
        }),
{
    let resized = resize_lanczos(img, fr.target_w, fr.target_h);
    let (w, h, rgba) = rgba_data(&resized);
    let compressed = zlib_compress(&rgba);
    let payload = b64_encode(&compressed);
    encode_kitty_frames(&payload, w, h, fr.cells_w, fr.cells_h, fr.col, fr.row, is_tmux)
}

} // verus!
