//! RGB colours, perceptual heuristics on them, and their terminal
//! escape renderings.
//!
//! Luminance and saturation are kept in integer arithmetic: luminance on
//! a scale of a thousandth of a channel unit (0 to 255000), so that the
//! perceptual thresholds of the palette heuristics are exact integer
//! comparisons.  Lightening and darkening take a factor in tenths.

use crate::numfmt::{dec_chars, u64_string};
use vstd::prelude::*;

verus! {

/// One colour, 8 bits per channel.
#[derive(Debug, Clone, Copy, PartialEq, Eq, Structural)]
pub struct Rgb {
    pub r: u8,
    pub g: u8,
    pub b: u8,
}

/// Luminance `0.299 R + 0.587 G + 0.114 B`, scaled by 1000: the result
/// ranges over 0 to 255000, and a perceptual threshold of `t` (as a
/// fraction of full white) corresponds to `t * 255000` here.
pub open spec fn lum_1000(c: Rgb) -> int {
    299 * c.r + 587 * c.g + 114 * c.b
}

/// The largest channel of `c`.
pub open spec fn max_channel(c: Rgb) -> int {
    if c.r >= c.g && c.r >= c.b {
        c.r as int
    } else if c.g >= c.b {
        c.g as int
    } else {
        c.b as int
    }
}

/// The smallest channel of `c`.
pub open spec fn min_channel(c: Rgb) -> int {
    if c.r <= c.g && c.r <= c.b {
        c.r as int
    } else if c.g <= c.b {
        c.g as int
    } else {
        c.b as int
    }
}

/// Channel-wise lightening towards white by `t` tenths:
/// `x + (255 - x) * t / 10` on each channel.
pub open spec fn lightened(c: Rgb, t: int) -> Rgb {
    Rgb {
        r: (c.r + (255 - c.r) * t / 10) as u8,
        g: (c.g + (255 - c.g) * t / 10) as u8,
        b: (c.b + (255 - c.b) * t / 10) as u8,
    }
}

/// Channel-wise darkening towards black by `t` tenths:
/// `x * (10 - t) / 10` on each channel.
pub open spec fn darkened(c: Rgb, t: int) -> Rgb {
    Rgb {
        r: (c.r * (10 - t) / 10) as u8,
        g: (c.g * (10 - t) / 10) as u8,
        b: (c.b * (10 - t) / 10) as u8,
    }
}

/// Desaturation halfway towards the channel average.
pub open spec fn muted_spec(c: Rgb) -> Rgb {
    Rgb {
        r: ((c.r + ((c.r + c.g + c.b) / 3)) / 2) as u8,
        g: ((c.g + ((c.r + c.g + c.b) / 3)) / 2) as u8,
        b: ((c.b + ((c.r + c.g + c.b) / 3)) / 2) as u8,
    }
}

/// The terminal truecolor foreground escape for `c`.
pub open spec fn fg_chars(c: Rgb) -> Seq<char> {
    "\x1b[38;2;"@ + dec_chars(c.r as int) + ";"@ + dec_chars(c.g as int) + ";"@ + dec_chars(
        c.b as int,
    ) + "m"@
}

/// The terminal truecolor background escape for `c`.
pub open spec fn bg_chars(c: Rgb) -> Seq<char> {
    "\x1b[48;2;"@ + dec_chars(c.r as int) + ";"@ + dec_chars(c.g as int) + ";"@ + dec_chars(
        c.b as int,
    ) + "m"@
}

/// One channel moved towards white: `x + (255 - x) * t / 10`.
fn lift_channel(x: u8, t: u8) -> (y: u8)
    requires
        t <= 10,
    ensures
        y == x + (255 - x) * t / 10,
{
    let d: u32 = (255 - x) as u32;
    proof {
        assert(d * t / 10 <= d) by (nonlinear_arith)
            requires
                t <= 10,
                d <= 255,
        ;
    }
    let inc: u32 = d * (t as u32) / 10;
    x + (inc as u8)
}

/// One channel moved towards black: `x * (10 - t) / 10`.
fn scale_channel(x: u8, t: u8) -> (y: u8)
    requires
        t <= 10,
    ensures
        y == x * (10 - t) / 10,
{
    let k: u32 = (10 - t) as u32;
    proof {
        assert(x * k / 10 <= x) by (nonlinear_arith)
            requires
                k <= 10,
                x <= 255,
        ;
    }
    ((x as u32) * k / 10) as u8
}

impl Rgb {
    /// Luminance scaled by 1000, so thresholds are exact comparisons.
    pub fn luminance_1000(self) -> (l: u32)
        ensures
            l == lum_1000(self),
            l <= 255000,
    {
        299 * (self.r as u32) + 587 * (self.g as u32) + 114 * (self.b as u32)
    }

    /// The largest channel.
    pub fn channel_max(self) -> (m: u8)
        ensures
            m == max_channel(self),
    {
        if self.r >= self.g && self.r >= self.b {
            self.r
        } else if self.g >= self.b {
            self.g
        } else {
            self.b
        }
    }

    /// The smallest channel.
    pub fn channel_min(self) -> (m: u8)
        ensures
            m == min_channel(self),
    {
        if self.r <= self.g && self.r <= self.b {
            self.r
        } else if self.g <= self.b {
            self.g
        } else {
            self.b
        }
    }

    /// Lightens towards white by `t` tenths.
    pub fn lighten_tenths(self, t: u8) -> (r: Rgb)
        requires
            t <= 10,
        ensures
            r == lightened(self, t as int),
    {
        Rgb {
            r: lift_channel(self.r, t),
            g: lift_channel(self.g, t),
            b: lift_channel(self.b, t),
        }
    }

    /// Darkens towards black by `t` tenths.
    pub fn darken_tenths(self, t: u8) -> (r: Rgb)
        requires
            t <= 10,
        ensures
            r == darkened(self, t as int),
    {
        Rgb {
            r: scale_channel(self.r, t),
            g: scale_channel(self.g, t),
            b: scale_channel(self.b, t),
        }
    }

    /// Desaturates halfway towards the channel average.
    pub fn muted(self) -> (r: Rgb)
        ensures
            r == muted_spec(self),
    {
        let gray: u32 = ((self.r as u32) + (self.g as u32) + (self.b as u32)) / 3;
        Rgb {
            r: (((self.r as u32) + gray) / 2) as u8,
            g: (((self.g as u32) + gray) / 2) as u8,
            b: (((self.b as u32) + gray) / 2) as u8,
        }
    }

    /// The truecolor foreground escape selecting `self`.
    pub fn as_fg(self) -> (s: String)
        ensures
            s@ == fg_chars(self),
    {
        let mut s = String::from_str("\x1b[38;2;");
        s.append(u64_string(self.r as u64).as_str());
        s.append(";");
        s.append(u64_string(self.g as u64).as_str());
        s.append(";");
        s.append(u64_string(self.b as u64).as_str());
        s.append("m");
        proof {
            assert(s@ =~= fg_chars(self));
        }
        s
    }

    /// The truecolor background escape selecting `self`.
    pub fn as_bg(self) -> (s: String)
        ensures
            s@ == bg_chars(self),
    {
        let mut s = String::from_str("\x1b[48;2;");
        s.append(u64_string(self.r as u64).as_str());
        s.append(";");
        s.append(u64_string(self.g as u64).as_str());
        s.append(";");
        s.append(u64_string(self.b as u64).as_str());
        s.append("m");
        proof {
            assert(s@ =~= bg_chars(self));
        }
        s
    }
}

/// The five-role colour theme derived from a photo.
#[derive(Debug, Clone, Copy, PartialEq, Eq, Structural)]
pub struct ColorPalette {
    pub accent: Rgb,
    pub secondary: Rgb,
    pub background: Rgb,
    pub text: Rgb,
    pub dim: Rgb,
}

/// The fixed fallback theme: a warm orange accent over a near-black
/// background, with legible fixed text colours.
pub open spec fn default_palette() -> ColorPalette {
    ColorPalette {
        accent: Rgb { r: 255, g: 170, b: 100 },
        secondary: Rgb { r: 100, g: 160, b: 220 },
        background: Rgb { r: 20, g: 25, b: 35 },
        text: Rgb { r: 220, g: 225, b: 230 },
        dim: Rgb { r: 120, g: 125, b: 135 },
    }
}

impl Default for ColorPalette {
    /// The fixed fallback theme.
    fn default() -> (d: Self)
        ensures
            d == default_palette(),
    {
        ColorPalette {
            accent: Rgb { r: 255, g: 170, b: 100 },
            secondary: Rgb { r: 100, g: 160, b: 220 },
            background: Rgb { r: 20, g: 25, b: 35 },
            text: Rgb { r: 220, g: 225, b: 230 },
            dim: Rgb { r: 120, g: 125, b: 135 },
        }
    }
}

} // verus!
