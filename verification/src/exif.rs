//! Interpretation of decoded EXIF tags.
//!
//! Raw tag decoding is an outside concern: what reaches this module is
//! a record of already-typed tag values ([`RawTags`]).  The library's
//! own work is the interpretation: the capture hour, the human date,
//! the camera line, exposure figures, and GPS rationals folded into
//! signed micro-degrees and their sexagesimal display.
//!
//! Fractions are rendered in fixed-point decimal with half-up
//! rounding; GPS positions are carried as signed millionths of a
//! degree, which is exactly the six-decimal precision the map link
//! uses.

use crate::numfmt::{dec_chars, digit_char, u64_string};
use vstd::prelude::*;

verus! {

/// An ASCII whitespace character, for tag trimming.
pub open spec fn is_ws(c: char) -> bool {
    c == ' ' || c == '\t' || c == '\n' || c == '\r' || c == '\u{b}' || c == '\u{c}'
}

/// `s` without leading whitespace.
pub open spec fn trim_front(s: Seq<char>) -> Seq<char>
    decreases s.len(),
{
    if s.len() > 0 && is_ws(s.first()) {
        trim_front(s.drop_first())
    } else {
        s
    }
}

/// `s` without trailing whitespace.
pub open spec fn trim_back(s: Seq<char>) -> Seq<char>
    decreases s.len(),
{
    if s.len() > 0 && is_ws(s.last()) {
        trim_back(s.drop_last())
    } else {
        s
    }
}

/// `s` without leading or trailing whitespace.
pub open spec fn trimmed(s: Seq<char>) -> Seq<char> {
    trim_back(trim_front(s))
}

/// Dropping one leading whitespace character steps `trim_front`.
proof fn lemma_trim_front_skip(s: Seq<char>, i: int)
    requires
        0 <= i <= s.len(),
        forall|t: int| 0 <= t < i ==> is_ws(#[trigger] s[t]),
    ensures
        trim_front(s) == trim_front(s.skip(i)),
    decreases i,
{
    if i > 0 {
        assert(is_ws(s.first()));
        assert(s.drop_first() =~= s.skip(1));
        assert forall|t: int| 0 <= t < i - 1 implies is_ws(#[trigger] s.skip(1)[t]) by {
            assert(s.skip(1)[t] == s[t + 1]);
        }
        lemma_trim_front_skip(s.skip(1), i - 1);
        assert(s.skip(1).skip(i - 1) =~= s.skip(i));
    } else {
        assert(s.skip(0) =~= s);
    }
}

/// Cutting trailing whitespace steps `trim_back`.
proof fn lemma_trim_back_take(s: Seq<char>, j: int)
    requires
        0 <= j <= s.len(),
        forall|t: int| j <= t < s.len() ==> is_ws(#[trigger] s[t]),
    ensures
        trim_back(s) == trim_back(s.take(j)),
    decreases s.len() - j,
{
    if j < s.len() {
        assert(is_ws(s.last()));
        assert(s.drop_last() =~= s.take(s.len() - 1));
        assert forall|t: int| j <= t < s.take(s.len() - 1).len() implies is_ws(
            #[trigger] s.take(s.len() - 1)[t],
        ) by {
            assert(s.take(s.len() - 1)[t] == s[t]);
        }
        lemma_trim_back_take(s.take(s.len() - 1), j);
        assert(s.take(s.len() - 1).take(j) =~= s.take(j));
    } else {
        assert(s.take(j) =~= s);
    }
}

/// Whether `c` is ASCII whitespace.
fn is_ws_exec(c: char) -> (r: bool)
    ensures
        r == is_ws(c),
{
    c == ' ' || c == '\t' || c == '\n' || c == '\r' || c == '\u{b}' || c == '\u{c}'
}

/// `s` with surrounding ASCII whitespace removed.
pub fn trim_ascii(s: &str) -> (r: String)
    ensures
        r@ == trimmed(s@),
{
    let n = s.unicode_len();
    let mut i: usize = 0;
    while i < n && is_ws_exec(s.get_char(i))
        invariant
            n == s@.len(),
            i <= n,
            forall|t: int| 0 <= t < i ==> is_ws(#[trigger] s@[t]),
        decreases n - i,
    {
        i += 1;
    }
    let mut j: usize = n;
    while j > i && is_ws_exec(s.get_char(j - 1))
        invariant
            n == s@.len(),
            i <= j <= n,
            forall|t: int| 0 <= t < i ==> is_ws(#[trigger] s@[t]),
            forall|t: int| j <= t < n ==> is_ws(#[trigger] s@[t]),
        decreases j,
    {
        j -= 1;
    }
    let r = String::from_str(s.substring_char(i, j));
    proof {
        let f = s@.skip(i as int);
        lemma_trim_front_skip(s@, i as int);
        if i < n {
            assert(!is_ws(s@[i as int]));
            assert(f.first() == s@[i as int]);
        }
        assert(trim_front(f) == f);
        assert forall|t: int| j - i <= t < f.len() implies is_ws(#[trigger] f[t]) by {
            assert(f[t] == s@[t + i]);
        }
        lemma_trim_back_take(f, j - i);
        if j > i {
            assert(!is_ws(s@[j - 1]));
            assert(f.take(j - i).last() == s@[j - 1]);
        }
        assert(trim_back(f.take(j - i)) == f.take(j - i));
        assert(s@.subrange(i as int, j as int) =~= f.take(j - i));
    }
    r
}

/// A decimal digit character.
pub open spec fn is_digit(c: char) -> bool {
    48 <= c as int <= 57
}

/// Its value.
pub open spec fn digit_val(c: char) -> int {
    c as int - 48
}

/// The capture hour read from a `YYYY:MM:DD HH:MM:SS`-shaped stamp:
/// the two characters after the date, when they are digits and name an
/// hour of day.  Anything malformed yields nothing — absent or odd
/// timing metadata is an expected case, not an error.
pub open spec fn hour_of_datetime(s: Seq<char>) -> Option<u8> {
    if s.len() >= 13 && is_digit(s[11]) && is_digit(s[12]) && 10 * digit_val(s[11]) + digit_val(
        s[12],
    ) <= 23 {
        Some((10 * digit_val(s[11]) + digit_val(s[12])) as u8)
    } else {
        None
    }
}

/// Reads the hour field out of a capture timestamp.
pub fn parse_hour_from_datetime(datetime: &str) -> (r: Option<u8>)
    ensures
        r == hour_of_datetime(datetime@),
{
    let n = datetime.unicode_len();
    if n < 13 {
        return None;
    }
    let c1 = datetime.get_char(11);
    let c2 = datetime.get_char(12);
    let v1 = c1 as u32;
    let v2 = c2 as u32;
    if 48 <= v1 && v1 <= 57 && 48 <= v2 && v2 <= 57 {
        let h = 10 * (v1 - 48) + (v2 - 48);
        if h <= 23 {
            Some(h as u8)
        } else {
            None
        }
    } else {
        None
    }
}

/// The month name for the two digits of a `MM` field; unknown numbers
/// stay as they are.
pub open spec fn month_name(a: char, b: char) -> Seq<char> {
    if a == '0' && b == '1' {
        "January"@
    } else if a == '0' && b == '2' {
        "February"@
    } else if a == '0' && b == '3' {
        "March"@
    } else if a == '0' && b == '4' {
        "April"@
    } else if a == '0' && b == '5' {
        "May"@
    } else if a == '0' && b == '6' {
        "June"@
    } else if a == '0' && b == '7' {
        "July"@
    } else if a == '0' && b == '8' {
        "August"@
    } else if a == '0' && b == '9' {
        "September"@
    } else if a == '1' && b == '0' {
        "October"@
    } else if a == '1' && b == '1' {
        "November"@
    } else if a == '1' && b == '2' {
        "December"@
    } else {
        seq![a, b]
    }
}

/// The day-of-month number of a `DD` field: zero unless both
/// characters are digits.
pub open spec fn day_val(a: char, b: char) -> int {
    if is_digit(a) && is_digit(b) {
        10 * digit_val(a) + digit_val(b)
    } else {
        0
    }
}

/// The human form of a capture stamp: `March 5, 2021 at 14:30` for
/// `2021:03:05 14:30:21`.  A stamp too short to carry all fields is
/// passed through unchanged.
pub open spec fn datetime_display(s: Seq<char>) -> Seq<char> {
    if s.len() < 19 {
        s
    } else {
        month_name(s[5], s[6]) + " "@ + dec_chars(day_val(s[8], s[9])) + ", "@ + s.subrange(0, 4)
            + " at "@ + s.subrange(11, 13) + ":"@ + s.subrange(14, 16)
    }
}

/// Renders a capture stamp for the info panel.
pub fn format_datetime(s: &str) -> (r: String)
    ensures
        r@ == datetime_display(s@),
{
    let n = s.unicode_len();
    if n < 19 {
        return String::from_str(s);
    }
    let m1 = s.get_char(5);
    let m2 = s.get_char(6);
    let month: String = month_name_exec(m1, m2, s);
    let d1 = s.get_char(8);
    let d2 = s.get_char(9);
    let dv1 = d1 as u32;
    let dv2 = d2 as u32;
    let day: u64 = if 48 <= dv1 && dv1 <= 57 && 48 <= dv2 && dv2 <= 57 {
        (10 * (dv1 - 48) + (dv2 - 48)) as u64
    } else {
        0
    };
    let mut out = month;
    out.append(" ");
    out.append(u64_string(day).as_str());
    out.append(", ");
    out.append(s.substring_char(0, 4));
    out.append(" at ");
    out.append(s.substring_char(11, 13));
    out.append(":");
    out.append(s.substring_char(14, 16));
    proof {
        assert(out@ =~= datetime_display(s@));
    }
    out
}

/// The decoded tag values of one photo, as the EXIF decoder hands
/// them over: strings as stored, fractions as numerator and
/// denominator, GPS coordinates as three rationals and a hemisphere
/// letter.
#[derive(Debug, Clone)]
pub struct RawTags {
    pub datetime: Option<String>,
    pub make: Option<String>,
    pub model: Option<String>,
    pub lens: Option<String>,
    pub exposure: Option<String>,
    pub f_number: Option<(u32, u32)>,
    pub iso: Option<u16>,
    pub focal_length: Option<(u32, u32)>,
    pub gps_lat: Option<GpsDms>,
    pub gps_lat_ref: Option<String>,
    pub gps_lon: Option<GpsDms>,
    pub gps_lon_ref: Option<String>,
}

/// A GPS coordinate as EXIF stores it: degrees, minutes and seconds,
/// each a rational.
#[derive(Debug, Clone, Copy, PartialEq, Eq, Structural)]
pub struct GpsDms {
    pub d_num: u32,
    pub d_den: u32,
    pub m_num: u32,
    pub m_den: u32,
    pub s_num: u32,
    pub s_den: u32,
}

/// The interpreted metadata of one photo.  GPS positions are signed
/// millionths of a degree; everything else is display text.
#[derive(Debug, Clone)]
pub struct ExifInfo {
    pub datetime: Option<String>,
    pub datetime_raw: Option<String>,
    pub hour: Option<u8>,
    pub location: Option<String>,
    pub camera: Option<String>,
    pub lens: Option<String>,
    pub exposure: Option<String>,
    pub aperture: Option<String>,
    pub iso: Option<String>,
    pub focal_length: Option<String>,
    pub gps_latitude: Option<i64>,
    pub gps_longitude: Option<i64>,
}

/// All three denominators are usable.
pub open spec fn dms_ok(g: GpsDms) -> bool {
    g.d_den > 0 && g.m_den > 0 && g.s_den > 0
}

/// The coordinate in millionths of a degree, each part floored:
/// `d + m/60 + s/3600`, scaled by a million.
pub open spec fn micro_of(g: GpsDms) -> int {
    (g.d_num as int) * 1000000 / (g.d_den as int) + (g.m_num as int) * 1000000 / ((g.m_den as int)
        * 60) + (g.s_num as int) * 1000000 / ((g.s_den as int) * 3600)
}

/// The magnitude the micro-degree arithmetic can reach.
pub open spec fn micro_bound() -> int {
    3int * 4294967295000000
}

/// The coordinate magnitude in micro-degrees.
fn micro_of_exec(g: GpsDms) -> (r: u64)
    requires
        dms_ok(g),
    ensures
        r == micro_of(g),
        r <= micro_bound(),
{
    let d: u64 = (g.d_num as u64) * 1000000 / (g.d_den as u64);
    let m: u64 = (g.m_num as u64) * 1000000 / ((g.m_den as u64) * 60);
    let s: u64 = (g.s_num as u64) * 1000000 / ((g.s_den as u64) * 3600);
    proof {
        vstd::arithmetic::div_mod::lemma_div_nonincreasing(g.d_num * 1000000, g.d_den as int);
        vstd::arithmetic::div_mod::lemma_div_nonincreasing(g.m_num * 1000000, (g.m_den * 60) as int);
        vstd::arithmetic::div_mod::lemma_div_nonincreasing(
            g.s_num * 1000000,
            (g.s_den * 3600) as int,
        );
    }
    d + m + s
}

/// Six digits after the decimal point, zero-padded.
pub open spec fn pad6(n: int) -> Seq<char> {
    seq![
        digit_char(n / 100000 % 10),
        digit_char(n / 10000 % 10),
        digit_char(n / 1000 % 10),
        digit_char(n / 100 % 10),
        digit_char(n / 10 % 10),
        digit_char(n % 10),
    ]
}

/// A signed micro-degree value as a six-decimal number, the form the
/// map link uses.
pub open spec fn fixed6(v: int) -> Seq<char> {
    let a = if v < 0 {
        -v
    } else {
        v
    };
    (if v < 0 {
        "-"@
    } else {
        Seq::<char>::empty()
    }) + dec_chars(a / 1000000) + "."@ + pad6(a % 1000000)
}

/// Renders a signed micro-degree value with six decimals.
fn fixed6_string(v: i64) -> (r: String)
    requires
        -micro_bound() <= v <= micro_bound(),
    ensures
        r@ == fixed6(v as int),
{
    let a: u64 = if v < 0 {
        (-v) as u64
    } else {
        v as u64
    };
    let mut out = if v < 0 {
        String::from_str("-")
    } else {
        String::new()
    };
    out.append(u64_string(a / 1000000).as_str());
    out.append(".");
    let f = a % 1000000;
    out.append(crate::numfmt::digit_str(f / 100000 % 10));
    out.append(crate::numfmt::digit_str(f / 10000 % 10));
    out.append(crate::numfmt::digit_str(f / 1000 % 10));
    out.append(crate::numfmt::digit_str(f / 100 % 10));
    out.append(crate::numfmt::digit_str(f / 10 % 10));
    out.append(crate::numfmt::digit_str(f % 10));
    proof {
        assert(out@ =~= fixed6(v as int));
    }
    out
}

/// One coordinate of the sexagesimal display: degrees, minutes, and
/// seconds to one decimal, then the hemisphere letter.  The decimal
/// is rounded half-up on the exact value; float formatting would
/// round the nearest double's midpoints to even instead.
pub open spec fn gps_one(a: int, dir: char) -> Seq<char> {
    let deg = a / 1000000;
    let rem = a % 1000000;
    let minu = rem * 60 / 1000000;
    let rem2 = (rem * 60) % 1000000;
    let st = (rem2 * 600 + 500000) / 1000000;
    dec_chars(deg) + "deg"@ + dec_chars(minu) + "'"@ + dec_chars(st / 10) + "."@ + seq![
        digit_char(st % 10),
    ] + "\""@ + seq![dir]
}

/// The two-coordinate sexagesimal display, hemisphere letters chosen
/// by sign.
pub open spec fn gps_display(latu: int, lonu: int) -> Seq<char> {
    let la = if latu < 0 {
        -latu
    } else {
        latu
    };
    let lo = if lonu < 0 {
        -lonu
    } else {
        lonu
    };
    gps_one(
        la,
        if latu >= 0 {
            'N'
        } else {
            'S'
        },
    ) + " "@ + gps_one(
        lo,
        if lonu >= 0 {
            'E'
        } else {
            'W'
        },
    )
}

/// One coordinate magnitude rendered sexagesimally.
fn gps_one_string(a: u64, dir: char) -> (r: String)
    requires
        a <= micro_bound(),
        dir == 'N' || dir == 'S' || dir == 'E' || dir == 'W',
    ensures
        r@ == gps_one(a as int, dir),
{
    let deg: u64 = a / 1000000;
    let rem: u64 = a % 1000000;
    let minu: u64 = rem * 60 / 1000000;
    let rem2: u64 = (rem * 60) % 1000000;
    let st: u64 = (rem2 * 600 + 500000) / 1000000;
    let mut out = u64_string(deg);
    out.append("deg");
    out.append(u64_string(minu).as_str());
    out.append("'");
    out.append(u64_string(st / 10).as_str());
    out.append(".");
    out.append(crate::numfmt::digit_str(st % 10));
    out.append("\"");
    if dir == 'N' {
        out.append("N");
        proof {
            reveal_strlit("N");
            assert(out@ =~= gps_one(a as int, dir));
        }
    } else if dir == 'S' {
        out.append("S");
        proof {
            reveal_strlit("S");
            assert(out@ =~= gps_one(a as int, dir));
        }
    } else if dir == 'E' {
        out.append("E");
        proof {
            reveal_strlit("E");
            assert(out@ =~= gps_one(a as int, dir));
        }
    } else {
        out.append("W");
        proof {
            reveal_strlit("W");
            assert(out@ =~= gps_one(a as int, dir));
        }
    }
    out
}

/// Renders a signed coordinate pair for the info panel.
pub fn format_gps_coordinates(latu: i64, lonu: i64) -> (r: String)
    requires
        -micro_bound() <= latu <= micro_bound(),
        -micro_bound() <= lonu <= micro_bound(),
    ensures
        r@ == gps_display(latu as int, lonu as int),
{
    let la: u64 = if latu < 0 {
        (-latu) as u64
    } else {
        latu as u64
    };
    let lo: u64 = if lonu < 0 {
        (-lonu) as u64
    } else {
        lonu as u64
    };
    let mut out = gps_one_string(
        la,
        if latu >= 0 {
            'N'
        } else {
            'S'
        },
    );
    out.append(" ");
    out.append(
        gps_one_string(
            lo,
            if lonu >= 0 {
                'E'
            } else {
                'W'
            },
        ).as_str(),
    );
    proof {
        assert(out@ =~= gps_display(latu as int, lonu as int));
    }
    out
}

/// The f-number in tenths: `10 n / d` on the exact rational, rounded
/// half-up.  Float formatting of the same fraction would round a
/// decimal midpoint of the nearest double to even instead; this
/// library settles ties upward, deliberately.
pub open spec fn ap_tenths(n: u32, d: u32) -> int {
    ((n as int) * 10 + (d as int) / 2) / (d as int)
}

/// The aperture display `f/2.8`.
pub open spec fn aperture_chars(n: u32, d: u32) -> Seq<char> {
    "f/"@ + dec_chars(ap_tenths(n, d) / 10) + "."@ + seq![digit_char(ap_tenths(n, d) % 10)]
}

/// The focal length in whole millimetres, rounded half-up on the
/// exact rational (ties upward, where float formatting would round
/// the nearest double's midpoints to even).
pub open spec fn focal_mm(n: u32, d: u32) -> int {
    ((n as int) + (d as int) / 2) / (d as int)
}

/// The focal length display `35mm`.
pub open spec fn focal_chars(n: u32, d: u32) -> Seq<char> {
    dec_chars(focal_mm(n, d)) + "mm"@
}

/// The sensitivity display `ISO 200`.
pub open spec fn iso_chars(n: u16) -> Seq<char> {
    "ISO "@ + dec_chars(n as int)
}

/// Renders an f-number fraction to one decimal.
fn aperture_string(n: u32, d: u32) -> (r: String)
    requires
        d > 0,
    ensures
        r@ == aperture_chars(n, d),
{
    let t: u64 = ((n as u64) * 10 + (d as u64) / 2) / (d as u64);
    let mut out = String::from_str("f/");
    out.append(u64_string(t / 10).as_str());
    out.append(".");
    out.append(crate::numfmt::digit_str(t % 10));
    proof {
        assert(out@ =~= aperture_chars(n, d));
    }
    out
}

/// Renders a focal-length fraction in whole millimetres.
fn focal_string(n: u32, d: u32) -> (r: String)
    requires
        d > 0,
    ensures
        r@ == focal_chars(n, d),
{
    let mm: u64 = ((n as u64) + (d as u64) / 2) / (d as u64);
    let mut out = u64_string(mm);
    out.append("mm");
    proof {
        assert(out@ =~= focal_chars(n, d));
    }
    out
}

/// Whether `p` spells the first characters of `s`.
fn starts_with_str(s: &str, p: &str) -> (r: bool)
    ensures
        r == p@.is_prefix_of(s@),
{
    let pn = p.unicode_len();
    let sn = s.unicode_len();
    if pn > sn {
        return false;
    }
    let mut i: usize = 0;
    while i < pn
        invariant
            pn == p@.len(),
            sn == s@.len(),
            pn <= sn,
            i <= pn,
            forall|t: int| 0 <= t < i ==> p@[t] == s@[t],
        decreases pn - i,
    {
        if p.get_char(i) != s.get_char(i) {
            proof {
                assert(s@.subrange(0, pn as int)[i as int] == s@[i as int]);
            }
            return false;
        }
        i += 1;
    }
    proof {
        assert(p@ =~= s@.subrange(0, pn as int));
    }
    true
}

/// The camera line: the trimmed model, prefixed by the trimmed make
/// when the model does not already repeat it; the make alone when no
/// model tag is present.
pub open spec fn camera_line(make: Option<String>, model: Option<String>) -> Option<Seq<char>> {
    match model {
        Some(mo) => {
            let m = trimmed(mo@);
            match make {
                Some(mk) => {
                    let k = trimmed(mk@);
                    if !k.is_prefix_of(m) {
                        Some(k + " "@ + m)
                    } else {
                        Some(m)
                    }
                },
                None => Some(m),
            }
        },
        None => match make {
            Some(mk) => Some(trimmed(mk@)),
            None => None,
        },
    }
}

/// A one-letter hemisphere reference spelling `c`.
pub open spec fn ref_negates(rf: String, c: char) -> bool {
    rf@.len() == 1 && rf@[0] == c
}

/// The signed micro-degree pair a tag record resolves to: present
/// when both coordinates and both hemisphere references are, and the
/// rationals have usable denominators; south and west negate.
pub open spec fn gps_resolved(tags: RawTags) -> Option<(int, int)> {
    match (tags.gps_lat, tags.gps_lat_ref, tags.gps_lon, tags.gps_lon_ref) {
        (Some(la), Some(lar), Some(lo), Some(lor)) => {
            if dms_ok(la) && dms_ok(lo) {
                Some(
                    (
                        if ref_negates(lar, 'S') {
                            -micro_of(la)
                        } else {
                            micro_of(la)
                        },
                        if ref_negates(lor, 'W') {
                            -micro_of(lo)
                        } else {
                            micro_of(lo)
                        },
                    ),
                )
            } else {
                None
            }
        },
        _ => None,
    }
}

/// Whether this reference string is the single letter `c`.
fn ref_is(rf: &String, c: char) -> (r: bool)
    ensures
        r == ref_negates(*rf, c),
{
    let s = rf.as_str();
    s.unicode_len() == 1 && s.get_char(0) == c
}

/// Interprets a record of decoded tags into display metadata: the
/// capture stamp in raw and human form with its hour, the camera and
/// lens lines, exposure figures, and the GPS position in signed
/// micro-degrees with its sexagesimal display.
pub fn extract(tags: &RawTags) -> (r: ExifInfo)
    ensures
        match tags.datetime {
            Some(s) => (r.datetime_raw matches Some(w) && w@ == s@) && (r.datetime matches Some(d)
                && d@ == datetime_display(s@)) && r.hour == hour_of_datetime(s@),
            None => r.datetime_raw is None && r.datetime is None && r.hour is None,
        },
        match camera_line(tags.make, tags.model) {
            Some(c) => r.camera matches Some(w) && w@ == c,
            None => r.camera is None,
        },
        match tags.lens {
            Some(l) => r.lens matches Some(w) && w@ == trimmed(l@),
            None => r.lens is None,
        },
        match tags.exposure {
            Some(e) => r.exposure matches Some(w) && w@ == e@,
            None => r.exposure is None,
        },
        match tags.f_number {
            Some(f) => {
                if f.1 > 0 {
                    r.aperture matches Some(w) && w@ == aperture_chars(f.0, f.1)
                } else {
                    r.aperture is None
                }
            },
            None => r.aperture is None,
        },
        match tags.iso {
            Some(n) => r.iso matches Some(w) && w@ == iso_chars(n),
            None => r.iso is None,
        },
        match tags.focal_length {
            Some(f) => {
                if f.1 > 0 {
                    r.focal_length matches Some(w) && w@ == focal_chars(f.0, f.1)
                } else {
                    r.focal_length is None
                }
            },
            None => r.focal_length is None,
        },
        match gps_resolved(*tags) {
            Some(p) => (r.gps_latitude matches Some(la) && la == p.0) && (r.gps_longitude
                matches Some(lo) && lo == p.1) && (r.location matches Some(w) && w@ == gps_display(
                p.0,
                p.1,
            )),
            None => r.gps_latitude is None && r.gps_longitude is None && r.location is None,
        },
{
    let (datetime_raw, datetime, hour) = match &tags.datetime {
        Some(s) => (
            Some(s.clone()),
            Some(format_datetime(s.as_str())),
            parse_hour_from_datetime(s.as_str()),
        ),
        None => (None, None, None),
    };
    let camera: Option<String> = match (&tags.make, &tags.model) {
        (mk_opt, Some(mo)) => {
            let m = trim_ascii(mo.as_str());
            match mk_opt {
                Some(mk) => {
                    let k = trim_ascii(mk.as_str());
                    if !starts_with_str(m.as_str(), k.as_str()) {
                        let mut c = k;
                        c.append(" ");
                        c.append(m.as_str());
                        Some(c)
                    } else {
                        Some(m)
                    }
                },
                None => Some(m),
            }
        },
        (Some(mk), None) => Some(trim_ascii(mk.as_str())),
        (None, None) => None,
    };
    let lens = match &tags.lens {
        Some(l) => Some(trim_ascii(l.as_str())),
        None => None,
    };
    let exposure = match &tags.exposure {
        Some(e) => Some(e.clone()),
        None => None,
    };
    let aperture = match &tags.f_number {
        Some(f) => {
            if f.1 > 0 {
                Some(aperture_string(f.0, f.1))
            } else {
                None
            }
        },
        None => None,
    };
    let iso = match &tags.iso {
        Some(n) => {
            let mut s = String::from_str("ISO ");
            s.append(u64_string(*n as u64).as_str());
            proof {
                assert(s@ =~= iso_chars(tags.iso->Some_0));
            }
            Some(s)
        },
        None => None,
    };
    let focal_length = match &tags.focal_length {
        Some(f) => {
            if f.1 > 0 {
                Some(focal_string(f.0, f.1))
            } else {
                None
            }
        },
        None => None,
    };
    let (gps_latitude, gps_longitude, location): (Option<i64>, Option<i64>, Option<String>) =
        match (&tags.gps_lat, &tags.gps_lat_ref, &tags.gps_lon, &tags.gps_lon_ref) {
        (Some(la), Some(lar), Some(lo), Some(lor)) => {
            if la.d_den > 0 && la.m_den > 0 && la.s_den > 0 && lo.d_den > 0 && lo.m_den > 0
                && lo.s_den > 0 {
                let lau = micro_of_exec(*la);
                let lou = micro_of_exec(*lo);
                let lat: i64 = if ref_is(lar, 'S') {
                    -(lau as i64)
                } else {
                    lau as i64
                };
                let lon: i64 = if ref_is(lor, 'W') {
                    -(lou as i64)
                } else {
                    lou as i64
                };
                let loc = format_gps_coordinates(lat, lon);
                (Some(lat), Some(lon), Some(loc))
            } else {
                (None, None, None)
            }
        },
        _ => (None, None, None),
    };
    ExifInfo {
        datetime,
        datetime_raw,
        hour,
        location,
        camera,
        lens,
        exposure,
        aperture,
        iso,
        focal_length,
        gps_latitude,
        gps_longitude,
    }
}

impl ExifInfo {
    /// Whether the photo carries a usable position.
    pub fn has_gps(&self) -> (r: bool)
        ensures
            r == (self.gps_latitude is Some && self.gps_longitude is Some),
    {
        self.gps_latitude.is_some() && self.gps_longitude.is_some()
    }

    /// The map link for the photo's position, six decimals per
    /// coordinate.
    pub fn maps_url(&self) -> (r: Option<String>)
        requires
            self.gps_latitude matches Some(la) ==> -micro_bound() <= la <= micro_bound(),
            self.gps_longitude matches Some(lo) ==> -micro_bound() <= lo <= micro_bound(),
        ensures
            match r {
                Some(u) => self.gps_latitude matches Some(la) && self.gps_longitude matches Some(lo)
                    && u@ == "https://maps.google.com/?q="@ + fixed6(la as int) + ","@ + fixed6(
                    lo as int,
                ),
                None => self.gps_latitude is None || self.gps_longitude is None,
            },
    {
        match (self.gps_latitude, self.gps_longitude) {
            (Some(la), Some(lo)) => {
                let mut u = String::from_str("https://maps.google.com/?q=");
                u.append(fixed6_string(la).as_str());
                u.append(",");
                u.append(fixed6_string(lo).as_str());
                Some(u)
            },
            _ => None,
        }
    }
}

/// The month name as a string value.
fn month_name_exec(a: char, b: char, s: &str) -> (r: String)
    requires
        s@.len() >= 7,
        s@[5] == a,
        s@[6] == b,
    ensures
        r@ == month_name(a, b),
{
    if a == '0' && b == '1' {
        String::from_str("January")
    } else if a == '0' && b == '2' {
        String::from_str("February")
    } else if a == '0' && b == '3' {
        String::from_str("March")
    } else if a == '0' && b == '4' {
        String::from_str("April")
    } else if a == '0' && b == '5' {
        String::from_str("May")
    } else if a == '0' && b == '6' {
        String::from_str("June")
    } else if a == '0' && b == '7' {
        String::from_str("July")
    } else if a == '0' && b == '8' {
        String::from_str("August")
    } else if a == '0' && b == '9' {
        String::from_str("September")
    } else if a == '1' && b == '0' {
        String::from_str("October")
    } else if a == '1' && b == '1' {
        String::from_str("November")
    } else if a == '1' && b == '2' {
        String::from_str("December")
    } else {
        let r = String::from_str(s.substring_char(5, 7));
        proof {
            assert(s@.subrange(5, 7) =~= seq![a, b]);
        }
        r
    }
}

} // verus!
