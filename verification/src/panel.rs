//! The info panel: which text lands on which cell, already styled.
//!
//! The panel occupies the bottom rows of the terminal: a filled
//! background, a border line, the file name and position, the picture
//! dimensions and size, capture time and place on the left, camera and
//! settings on the right, and a help bar.  Each piece is a
//! [`PanelSpan`]: a row, a column, and the styled text to print there.
//! Writing the spans to the terminal is the caller's trivial loop; what
//! this module proves is that every span carries exactly the layout's
//! text at the layout's place.

use crate::color::{bg_chars, darkened, fg_chars, muted_spec, ColorPalette};
use crate::exif::ExifInfo;
use crate::numfmt::{dec_chars, digit_char, u64_string};
use vstd::prelude::*;

verus! {

/// One positioned piece of panel text: the cell it starts at
/// (1-based), and the styled text, colour escapes included.
#[derive(Debug, Clone)]
pub struct PanelSpan {
    pub row: u16,
    pub col: u16,
    pub text: String,
}

/// The spans as abstract triples.
pub open spec fn views_of(v: Seq<PanelSpan>) -> Seq<(int, int, Seq<char>)> {
    Seq::new(v.len(), |i: int| (v[i].row as int, v[i].col as int, v[i].text@))
}

/// `n` copies of one character.
pub open spec fn repeat_char(c: char, n: int) -> Seq<char> {
    if n >= 0 {
        Seq::new(n as nat, |i: int| c)
    } else {
        Seq::empty()
    }
}

/// The terminal's style-reset escape.
pub open spec fn reset_chars() -> Seq<char> {
    "\x1b[0m"@
}

/// What shortened text fits in `max` cells: short text unchanged,
/// longer text cut with a three-dot tail when there is room for one.
pub open spec fn trunc_spec(s: Seq<char>, max: int) -> Seq<char> {
    if s.len() <= max {
        s
    } else if max > 3 {
        s.take(max - 3) + "..."@
    } else {
        s.take(if max >= 0 {
            max
        } else {
            0
        })
    }
}

/// Shortens text to fit `max` cells.
pub fn truncate(s: &str, max: usize) -> (r: String)
    ensures
        r@ == trunc_spec(s@, max as int),
{
    let n = s.unicode_len();
    if n <= max {
        String::from_str(s)
    } else if max > 3 {
        let mut r = String::from_str(s.substring_char(0, max - 3));
        r.append("...");
        proof {
            assert(s@.subrange(0, max - 3) =~= s@.take(max - 3));
            assert(r@ =~= trunc_spec(s@, max as int));
        }
        r
    } else {
        let r = String::from_str(s.substring_char(0, max));
        proof {
            assert(s@.subrange(0, max as int) =~= s@.take(max as int));
        }
        r
    }
}

/// Two digits, zero-padded.
pub open spec fn pad2(n: int) -> Seq<char> {
    seq![digit_char(n / 10 % 10), digit_char(n % 10)]
}

/// The human size of a file: gigabytes to two decimals, megabytes to
/// one, whole kilobytes, or plain bytes.  Each figure is rounded
/// half-up on the exact quotient; float formatting would round the
/// nearest double's decimal midpoints to even, a deliberate
/// difference at exact ties.
pub open spec fn size_chars(bytes: int) -> Seq<char> {
    if bytes >= 1073741824 {
        let h = (bytes * 100 + 536870912) / 1073741824;
        dec_chars(h / 100) + "."@ + pad2(h % 100) + " GB"@
    } else if bytes >= 1048576 {
        let t = (bytes * 10 + 524288) / 1048576;
        dec_chars(t / 10) + "."@ + seq![digit_char(t % 10)] + " MB"@
    } else if bytes >= 1024 {
        dec_chars((bytes + 512) / 1024) + " KB"@
    } else {
        dec_chars(bytes) + " B"@
    }
}

/// Renders a byte count for the info panel.
#[verifier::rlimit(100)]
#[verifier::spinoff_prover]
pub fn format_size(bytes: u64) -> (r: String)
    ensures
        r@ == size_chars(bytes as int),
{
    if bytes >= 1073741824 {
        let h: u64 = (((bytes as u128) * 100 + 536870912) / 1073741824) as u64;
        proof {
            assert((bytes as int) * 100 + 536870912 <= (18446744073709551615int) * 100
                + 536870912);
            vstd::arithmetic::div_mod::lemma_div_is_ordered(
                (bytes as int) * 100 + 536870912,
                (18446744073709551615int) * 100 + 536870912,
                1073741824,
            );
        }
        let mut r = u64_string(h / 100);
        r.append(".");
        r.append(crate::numfmt::digit_str(h / 10 % 10));
        r.append(crate::numfmt::digit_str(h % 10));
        r.append(" GB");
        proof {
            assert(r@ =~= size_chars(bytes as int));
        }
        r
    } else if bytes >= 1048576 {
        let t: u64 = (bytes * 10 + 524288) / 1048576;
        let mut r = u64_string(t / 10);
        r.append(".");
        r.append(crate::numfmt::digit_str(t % 10));
        r.append(" MB");
        proof {
            assert(r@ =~= size_chars(bytes as int));
        }
        r
    } else if bytes >= 1024 {
        let mut r = u64_string((bytes + 512) / 1024);
        r.append(" KB");
        proof {
            assert(r@ =~= size_chars(bytes as int));
        }
        r
    } else {
        let mut r = u64_string(bytes);
        r.append(" B");
        proof {
            assert(r@ =~= size_chars(bytes as int));
        }
        r
    }
}

/// The picture facts the panel shows beside the metadata.
#[derive(Debug, Clone, Copy, PartialEq, Eq, Structural)]
pub struct ImageMeta {
    pub width: u32,
    pub height: u32,
    pub file_size: u64,
}


/// The background-fill spans: one full-width styled blank per row
/// from `r` to the bottom row `th`.
pub open spec fn fill_spans(r: int, th: int, txt: Seq<char>) -> Seq<(int, int, Seq<char>)>
    decreases th + 1 - r,
{
    if r > th {
        Seq::empty()
    } else {
        seq![(r, 1int, txt)] + fill_spans(r + 1, th, txt)
    }
}

/// The first `n` settings values joined: two dimmed spaces between
/// values, each value in the text colour.
pub open spec fn settings_text(
    items: Seq<Seq<char>>,
    dimf: Seq<char>,
    textf: Seq<char>,
    n: int,
) -> Seq<char>
    decreases n,
{
    if n <= 0 {
        Seq::empty()
    } else {
        settings_text(items, dimf, textf, n - 1) + (if n - 1 > 0 {
            dimf + "  "@
        } else {
            Seq::empty()
        }) + textf + items[n - 1]
    }
}

/// The settings values present, in display order: focal length,
/// aperture, exposure, sensitivity.
pub open spec fn settings_list(info: ExifInfo) -> Seq<Seq<char>> {
    (match info.focal_length {
        Some(f) => seq![f@],
        None => Seq::empty(),
    }) + (match info.aperture {
        Some(a) => seq![a@],
        None => Seq::empty(),
    }) + (match info.exposure {
        Some(e) => seq![e@],
        None => Seq::empty(),
    }) + (match info.iso {
        Some(i) => seq![i@],
        None => Seq::empty(),
    })
}

/// Where the panel starts: its height up from the bottom.
pub open spec fn panel_start_row(th: int, ph: int) -> int {
    if th >= ph {
        th - ph
    } else {
        0
    }
}

/// The position tag's column: right-aligned with a three-cell margin
/// beyond its brackets.
pub open spec fn pos_col(tw: int, pos_len: int) -> int {
    if tw >= pos_len + 5 {
        tw - pos_len - 5
    } else {
        0
    }
}

/// The panel's frame: the filled background rows, the border line,
/// the title and position tags, and the dimensions line.
pub open spec fn frame_part(
    filename: Seq<char>,
    meta: ImageMeta,
    pal: ColorPalette,
    tw: int,
    th: int,
    ph: int,
    pos: Seq<char>,
) -> Seq<(int, int, Seq<char>)> {
    let ps = panel_start_row(th, ph);
    let bg = bg_chars(darkened(pal.background, 3));
    fill_spans(ps, th, bg + repeat_char(' ', tw)) + seq![
        (ps, 1int, fg_chars(muted_spec(pal.accent)) + repeat_char('─', tw) + reset_chars()),
        (ps + 1, 3int, bg + fg_chars(pal.accent) + trunc_spec(filename, tw / 2)),
        (ps + 1, pos_col(tw, pos.len() as int), bg + fg_chars(pal.dim) + "["@ + pos + "]"@),
        (
            ps + 2,
            3int,
            bg + fg_chars(pal.dim) + dec_chars(meta.width as int) + "x"@ + dec_chars(
                meta.height as int,
            ) + "  "@ + fg_chars(pal.secondary) + size_chars(meta.file_size as int)
                + reset_chars(),
        ),
    ]
}

/// The left column: capture time, place, and the map hint.
pub open spec fn left_part(info: ExifInfo, pal: ColorPalette, th: int, ph: int) -> Seq<
    (int, int, Seq<char>),
> {
    let ps = panel_start_row(th, ph);
    let bg = bg_chars(darkened(pal.background, 3));
    let accent = fg_chars(pal.accent);
    let dim = fg_chars(pal.dim);
    let text = fg_chars(pal.text);
    let has_gps = info.gps_latitude is Some && info.gps_longitude is Some;
    let when_rows: int = if info.datetime is Some {
        1
    } else {
        0
    };
    (match info.datetime {
        Some(d) => seq![(ps + 4, 3int, bg + accent + " When   "@ + text + d@ + reset_chars())],
        None => Seq::empty(),
    }) + (match info.location {
        Some(l) => seq![
            (ps + 4 + when_rows, 3int, bg + accent + " Where  "@ + text + l@ + reset_chars()),
        ] + (if has_gps {
            seq![
                (
                    ps + 5 + when_rows,
                    3int,
                    bg + dim + "        Press "@ + accent + "m"@ + dim + " for Maps"@
                        + reset_chars(),
                ),
            ]
        } else {
            Seq::empty()
        }),
        None => Seq::empty(),
    })
}

/// The right column: camera, lens, and the joined settings line.
pub open spec fn right_part(info: ExifInfo, pal: ColorPalette, tw: int, th: int, ph: int) -> Seq<
    (int, int, Seq<char>),
> {
    let ps = panel_start_row(th, ph);
    let bg = bg_chars(darkened(pal.background, 3));
    let secondary = fg_chars(pal.secondary);
    let dim = fg_chars(pal.dim);
    let text = fg_chars(pal.text);
    let c2 = tw / 2;
    let cam_rows: int = if info.camera is Some {
        1
    } else {
        0
    };
    let lens_rows: int = if info.lens is Some {
        1
    } else {
        0
    };
    let sl = settings_list(info);
    (match info.camera {
        Some(c) => seq![
            (
                ps + 3,
                c2,
                bg + secondary + " Camera  "@ + text + trunc_spec(c@, tw / 2 - 10)
                    + reset_chars(),
            ),
        ],
        None => Seq::empty(),
    }) + (match info.lens {
        Some(l) => seq![
            (
                ps + 3 + cam_rows,
                c2,
                bg + dim + "          "@ + trunc_spec(l@, tw / 2 - 12) + reset_chars(),
            ),
        ],
        None => Seq::empty(),
    }) + (if sl.len() > 0 {
        seq![
            (
                ps + 3 + cam_rows + lens_rows,
                c2,
                bg + secondary + " Settings  "@ + settings_text(sl, dim, text, sl.len() as int)
                    + reset_chars(),
            ),
        ]
    } else {
        Seq::empty()
    })
}

/// The help bar on the bottom row.
pub open spec fn help_part(info: ExifInfo, pal: ColorPalette, th: int) -> Seq<
    (int, int, Seq<char>),
> {
    let bg = bg_chars(darkened(pal.background, 3));
    let accent = fg_chars(pal.accent);
    let dim = fg_chars(pal.dim);
    let has_gps = info.gps_latitude is Some && info.gps_longitude is Some;
    seq![
        (
            th,
            3int,
            bg + " "@ + accent + "</>"@ + dim + "Navigate   "@ + accent + "q"@ + dim + "Quit"@ + (
            if has_gps {
                "   "@ + accent + "m"@ + dim + "Maps   "@ + accent + "c"@ + dim + "Copy"@
            } else {
                Seq::<char>::empty()
            }) + reset_chars(),
        ),
    ]
}

/// Every span of the info panel, in paint order.
pub open spec fn panel_spans(
    filename: Seq<char>,
    info: ExifInfo,
    meta: ImageMeta,
    pal: ColorPalette,
    tw: int,
    th: int,
    ph: int,
    pos: Seq<char>,
) -> Seq<(int, int, Seq<char>)> {
    frame_part(filename, meta, pal, tw, th, ph, pos) + left_part(info, pal, th, ph) + right_part(
        info,
        pal,
        tw,
        th,
        ph,
    ) + help_part(info, pal, th)
}

/// Views distribute over concatenation.
proof fn lemma_views_concat(a: Seq<PanelSpan>, b: Seq<PanelSpan>)
    ensures
        views_of(a + b) =~= views_of(a) + views_of(b),
{
    assert forall|i: int| 0 <= i < (a + b).len() implies views_of(a + b)[i] == (views_of(a)
        + views_of(b))[i] by {
        if i < a.len() {
            assert((a + b)[i] == a[i]);
        } else {
            assert((a + b)[i] == b[i - a.len()]);
        }
    }
}

/// Views distribute over push.
proof fn lemma_views_push(s: Seq<PanelSpan>, x: PanelSpan)
    ensures
        views_of(s.push(x)) =~= views_of(s).push((x.row as int, x.col as int, x.text@)),
{
    assert forall|i: int| 0 <= i < s.push(x).len() implies views_of(s.push(x))[i] == views_of(
        s,
    ).push((x.row as int, x.col as int, x.text@))[i] by {
        if i < s.len() {
            assert(s.push(x)[i] == s[i]);
        } else {
            assert(s.push(x)[i] == x);
        }
    }
}

/// `n` copies of a one-character string.
fn repeat_str(piece: &str, n: u16) -> (r: String)
    requires
        piece@.len() == 1,
    ensures
        r@ == repeat_char(piece@[0], n as int),
{
    let mut r = String::new();
    let mut k: u16 = 0;
    while k < n
        invariant
            k <= n,
            piece@.len() == 1,
            r@ =~= repeat_char(piece@[0], k as int),
        decreases n - k,
    {
        r.append(piece);
        proof {
            assert(r@ =~= repeat_char(piece@[0], k + 1));
        }
        k += 1;
    }
    r
}

/// Builds the frame spans.
#[verifier::rlimit(100)]
fn frame_spans(
    filename: &str,
    meta: ImageMeta,
    pal: ColorPalette,
    tw: u16,
    th: u16,
    ph: u16,
    pos: &str,
) -> (r: Vec<PanelSpan>)
    requires
        tw >= 24,
        6 <= ph <= th,
    ensures
        views_of(r@) == frame_part(filename@, meta, pal, tw as int, th as int, ph as int, pos@),
{
    let ps: u16 = th - ph;
    let bg = pal.background.darken_tenths(3).as_bg();
    let mut out: Vec<PanelSpan> = Vec::new();

    proof {
        reveal_strlit(" ");
    }
    let mut blank = bg.clone();
    blank.append(repeat_str(" ", tw).as_str());
    let ghost txt_fill = bg_chars(darkened(pal.background, 3)) + repeat_char(' ', tw as int);
    proof {
        assert(blank@ =~= txt_fill);
    }
    let rows: usize = (th - ps) as usize + 1;
    let ghost total_fill = fill_spans(ps as int, th as int, txt_fill);
    let mut k: usize = 0;
    proof {
        assert(views_of(out@) =~= Seq::<(int, int, Seq<char>)>::empty());
        assert(total_fill =~= views_of(out@) + fill_spans(ps as int, th as int, txt_fill));
    }
    while k < rows
        invariant
            ps == th - ph,
            6 <= ph <= th,
            rows == (th - ps) + 1,
            k <= rows,
            blank@ == txt_fill,
            total_fill == views_of(out@) + fill_spans(ps + k as int, th as int, txt_fill),
        decreases rows - k,
    {
        let row: u16 = ps + (k as u16);
        let ghost out0 = out@;
        out.push(PanelSpan { row, col: 1, text: blank.clone() });
        proof {
            lemma_views_push(out0, out@.last());
            assert(views_of(out@) =~= views_of(out0).push((row as int, 1int, txt_fill)));
            assert(fill_spans(ps + k as int, th as int, txt_fill) =~= seq![
                (ps + k as int, 1int, txt_fill),
            ] + fill_spans(ps + k + 1 as int, th as int, txt_fill));
            assert(total_fill =~= views_of(out@) + fill_spans(
                ps + (k + 1) as int,
                th as int,
                txt_fill,
            ));
        }
        k += 1;
    }
    proof {
        assert(fill_spans(ps + k as int, th as int, txt_fill) =~= Seq::<
            (int, int, Seq<char>),
        >::empty());
        assert(views_of(out@) =~= total_fill);
    }

    proof {
        reveal_strlit("─");
    }
    let mut border = pal.accent.muted().as_fg();
    border.append(repeat_str("─", tw).as_str());
    border.append("\x1b[0m");
    let ghost o1 = out@;
    out.push(PanelSpan { row: ps, col: 1, text: border });
    proof {
        lemma_views_push(o1, out@.last());
    }

    let mut title = bg.clone();
    title.append(pal.accent.as_fg().as_str());
    title.append(truncate(filename, (tw as usize) / 2).as_str());
    let ghost o2 = out@;
    out.push(PanelSpan { row: ps + 1, col: 3, text: title });
    proof {
        lemma_views_push(o2, out@.last());
    }

    let plen = pos.unicode_len();
    let pcol: u16 = if plen < (tw as usize) && (tw as usize) - plen >= 5 {
        ((tw as usize) - plen - 5) as u16
    } else {
        0
    };
    proof {
        assert(pcol as int == pos_col(tw as int, pos@.len() as int));
    }
    let mut ptext = bg.clone();
    ptext.append(pal.dim.as_fg().as_str());
    ptext.append("[");
    ptext.append(pos);
    ptext.append("]");
    let ghost o3 = out@;
    out.push(PanelSpan { row: ps + 1, col: pcol, text: ptext });
    proof {
        lemma_views_push(o3, out@.last());
    }

    let mut dims = bg.clone();
    dims.append(pal.dim.as_fg().as_str());
    dims.append(u64_string(meta.width as u64).as_str());
    dims.append("x");
    dims.append(u64_string(meta.height as u64).as_str());
    dims.append("  ");
    dims.append(pal.secondary.as_fg().as_str());
    dims.append(format_size(meta.file_size).as_str());
    dims.append("\x1b[0m");
    let ghost o4 = out@;
    out.push(PanelSpan { row: ps + 2, col: 3, text: dims });
    proof {
        lemma_views_push(o4, out@.last());
        assert(views_of(out@) =~~= frame_part(
            filename@,
            meta,
            pal,
            tw as int,
            th as int,
            ph as int,
            pos@,
        ));
    }
    out
}

/// Builds the left column spans.
#[verifier::rlimit(100)]
fn left_spans(info: &ExifInfo, pal: ColorPalette, th: u16, ph: u16) -> (r: Vec<PanelSpan>)
    requires
        6 <= ph <= th,
    ensures
        views_of(r@) == left_part(*info, pal, th as int, ph as int),
{
    let ps: u16 = th - ph;
    let bg = pal.background.darken_tenths(3).as_bg();
    let accent = pal.accent.as_fg();
    let dim = pal.dim.as_fg();
    let textc = pal.text.as_fg();
    let has_gps = info.gps_latitude.is_some() && info.gps_longitude.is_some();
    let mut out: Vec<PanelSpan> = Vec::new();
    let when_rows: u16 = match &info.datetime {
        Some(d) => {
            let mut t = bg.clone();
            t.append(accent.as_str());
            t.append(" When   ");
            t.append(textc.as_str());
            t.append(d.as_str());
            t.append("\x1b[0m");
            let ghost o = out@;
            out.push(PanelSpan { row: ps + 4, col: 3, text: t });
            proof {
                lemma_views_push(o, out@.last());
            }
            1
        },
        None => 0,
    };
    match &info.location {
        Some(l) => {
            let mut t = bg.clone();
            t.append(accent.as_str());
            t.append(" Where  ");
            t.append(textc.as_str());
            t.append(l.as_str());
            t.append("\x1b[0m");
            let ghost o = out@;
            out.push(PanelSpan { row: ps + 4 + when_rows, col: 3, text: t });
            proof {
                lemma_views_push(o, out@.last());
            }
            if has_gps {
                let mut m = bg.clone();
                m.append(dim.as_str());
                m.append("        Press ");
                m.append(accent.as_str());
                m.append("m");
                m.append(dim.as_str());
                m.append(" for Maps");
                m.append("\x1b[0m");
                let ghost o2 = out@;
                out.push(PanelSpan { row: ps + 5 + when_rows, col: 3, text: m });
                proof {
                    lemma_views_push(o2, out@.last());
                }
            }
        },
        None => {},
    }
    proof {
        assert(views_of(out@) =~~= left_part(*info, pal, th as int, ph as int));
    }
    out
}

/// Collects the settings values present, in display order.
fn collect_settings(info: &ExifInfo) -> (r: Vec<String>)
    ensures
        r@.len() == settings_list(*info).len(),
        forall|i: int| 0 <= i < r@.len() ==> (#[trigger] r@[i])@ == settings_list(*info)[i],
{
    let mut r: Vec<String> = Vec::new();
    match &info.focal_length {
        Some(f) => r.push(f.clone()),
        None => {},
    }
    match &info.aperture {
        Some(a) => r.push(a.clone()),
        None => {},
    }
    match &info.exposure {
        Some(e) => r.push(e.clone()),
        None => {},
    }
    match &info.iso {
        Some(i) => r.push(i.clone()),
        None => {},
    }
    r
}

/// Builds the right column spans.
#[verifier::rlimit(100)]
fn right_spans(info: &ExifInfo, pal: ColorPalette, tw: u16, th: u16, ph: u16) -> (r: Vec<
    PanelSpan,
>)
    requires
        tw >= 24,
        6 <= ph <= th,
    ensures
        views_of(r@) == right_part(*info, pal, tw as int, th as int, ph as int),
{
    let ps: u16 = th - ph;
    let bg = pal.background.darken_tenths(3).as_bg();
    let secondary = pal.secondary.as_fg();
    let dim = pal.dim.as_fg();
    let textc = pal.text.as_fg();
    let c2: u16 = tw / 2;
    let mut out: Vec<PanelSpan> = Vec::new();
    let cam_rows: u16 = match &info.camera {
        Some(c) => {
            let mut t = bg.clone();
            t.append(secondary.as_str());
            t.append(" Camera  ");
            t.append(textc.as_str());
            t.append(truncate(c.as_str(), ((tw / 2) - 10) as usize).as_str());
            t.append("\x1b[0m");
            let ghost o = out@;
            out.push(PanelSpan { row: ps + 3, col: c2, text: t });
            proof {
                lemma_views_push(o, out@.last());
            }
            1
        },
        None => 0,
    };
    let lens_rows: u16 = match &info.lens {
        Some(l) => {
            let mut t = bg.clone();
            t.append(dim.as_str());
            t.append("          ");
            t.append(truncate(l.as_str(), ((tw / 2) - 12) as usize).as_str());
            t.append("\x1b[0m");
            let ghost o = out@;
            out.push(PanelSpan { row: ps + 3 + cam_rows, col: c2, text: t });
            proof {
                lemma_views_push(o, out@.last());
            }
            1
        },
        None => 0,
    };
    let settings = collect_settings(info);
    let ghost sl = settings_list(*info);
    if settings.len() > 0 {
        let mut t = bg.clone();
        t.append(secondary.as_str());
        t.append(" Settings  ");
        let ghost base = t@;
        let mut i: usize = 0;
        proof {
            assert(t@ =~= base + settings_text(sl, dim@, textc@, 0));
        }
        while i < settings.len()
            invariant
                i <= settings@.len(),
                settings@.len() == sl.len(),
                forall|j: int|
                    0 <= j < settings@.len() ==> (#[trigger] settings@[j])@ == sl[j],
                t@ == base + settings_text(sl, dim@, textc@, i as int),
                dim@ == fg_chars(pal.dim),
                textc@ == fg_chars(pal.text),
            decreases settings@.len() - i,
        {
            if i > 0 {
                t.append(dim.as_str());
                t.append("  ");
            }
            t.append(textc.as_str());
            t.append(settings[i].as_str());
            proof {
                assert(t@ =~= base + settings_text(sl, dim@, textc@, i + 1));
            }
            i += 1;
        }
        t.append("\x1b[0m");
        let ghost o = out@;
        out.push(PanelSpan { row: ps + 3 + cam_rows + lens_rows, col: c2, text: t });
        proof {
            lemma_views_push(o, out@.last());
        }
    }
    proof {
        assert(views_of(out@) =~~= right_part(*info, pal, tw as int, th as int, ph as int));
    }
    out
}

/// Builds the help bar span.
#[verifier::rlimit(100)]
fn help_spans(info: &ExifInfo, pal: ColorPalette, th: u16) -> (r: Vec<PanelSpan>)
    ensures
        views_of(r@) == help_part(*info, pal, th as int),
{
    let bg = pal.background.darken_tenths(3).as_bg();
    let accent = pal.accent.as_fg();
    let dim = pal.dim.as_fg();
    let has_gps = info.gps_latitude.is_some() && info.gps_longitude.is_some();
    let mut help = bg.clone();
    help.append(" ");
    help.append(accent.as_str());
    help.append("</>");
    help.append(dim.as_str());
    help.append("Navigate   ");
    help.append(accent.as_str());
    help.append("q");
    help.append(dim.as_str());
    help.append("Quit");
    if has_gps {
        help.append("   ");
        help.append(accent.as_str());
        help.append("m");
        help.append(dim.as_str());
        help.append("Maps   ");
        help.append(accent.as_str());
        help.append("c");
        help.append(dim.as_str());
        help.append("Copy");
    }
    help.append("\x1b[0m");
    let mut out: Vec<PanelSpan> = Vec::new();
    out.push(PanelSpan { row: th, col: 3, text: help });
    proof {
        lemma_views_push(Seq::<PanelSpan>::empty(), out@.last());
        assert(out@ =~= Seq::<PanelSpan>::empty().push(out@.last()));
        assert(views_of(out@) =~~= help_part(*info, pal, th as int));
    }
    out
}

/// Lays the info panel out: every span of styled text with the cell
/// it starts at, in paint order.  The width must seat the two columns
/// and the panel must have its rows of fields.
pub fn compose_panel(
    filename: &str,
    info: &ExifInfo,
    meta: ImageMeta,
    pal: ColorPalette,
    term_width: u16,
    term_height: u16,
    panel_height: u16,
    position: &str,
) -> (r: Vec<PanelSpan>)
    requires
        term_width >= 24,
        6 <= panel_height <= term_height,
    ensures
        views_of(r@) == panel_spans(
            filename@,
            *info,
            meta,
            pal,
            term_width as int,
            term_height as int,
            panel_height as int,
            position@,
        ),
{
    let mut out = frame_spans(filename, meta, pal, term_width, term_height, panel_height, position);
    let mut l = left_spans(info, pal, term_height, panel_height);
    let ghost a = out@;
    let ghost b = l@;
    out.append(&mut l);
    proof {
        lemma_views_concat(a, b);
    }
    let mut rc = right_spans(info, pal, term_width, term_height, panel_height);
    let ghost a2 = out@;
    let ghost b2 = rc@;
    out.append(&mut rc);
    proof {
        lemma_views_concat(a2, b2);
    }
    let mut h = help_spans(info, pal, term_height);
    let ghost a3 = out@;
    let ghost b3 = h@;
    out.append(&mut h);
    proof {
        lemma_views_concat(a3, b3);
        assert(views_of(out@) =~~= panel_spans(
            filename@,
            *info,
            meta,
            pal,
            term_width as int,
            term_height as int,
            panel_height as int,
            position@,
        ));
    }
    out
}

} // verus!
