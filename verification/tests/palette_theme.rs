use wallpaper_slideshow::color::{ColorPalette, Rgb};
use wallpaper_slideshow::palette::{extract_palette, palette_from_pixels};

fn rgb(r: u8, g: u8, b: u8) -> Rgb {
    Rgb { r, g, b }
}

#[test]
fn all_black_grid_falls_back_to_warm_accent() {
    let pixels = vec![rgb(0, 0, 0); 64 * 64];
    let p = palette_from_pixels(&pixels);
    assert_eq!(p.accent, rgb(255, 170, 100));
    assert_ne!(p.accent, rgb(0, 0, 0));
    assert_eq!(p.background, rgb(0, 0, 0));
    assert_eq!(p.text, rgb(230, 235, 240));
    assert_eq!(p.dim, rgb(140, 145, 155));
}

#[test]
fn saturated_midtone_becomes_the_accent() {
    let mut pixels = vec![rgb(200, 50, 50); 3000];
    pixels.extend(vec![rgb(30, 30, 30); 1000]);
    let p = palette_from_pixels(&pixels);
    // Quantized to 16-wide buckets: (192, 48, 48), luminance inside the
    // band, spread 144 -- it wins the accent and keeps its value.
    assert_eq!(p.accent, rgb(192, 48, 48));
    // The dark grey bucket (16,16,16) is the first dark colour; darkened
    // by 60% it becomes (6,6,6).
    assert_eq!(p.background, rgb(6, 6, 6));
}

#[test]
fn dark_accent_is_lightened_into_range() {
    // One colour, dark but in band: luminance 64000 is above the band
    // floor of 38250 and below the 0.3 threshold of 76500, so the
    // accent is lightened by four tenths: 64 + (255-64)*4/10 = 140.
    let pixels = vec![rgb(64, 64, 64); 100];
    let p = palette_from_pixels(&pixels);
    assert_eq!(p.accent, rgb(140, 140, 140));
}

#[test]
fn default_palette_is_the_fixed_theme() {
    let d = ColorPalette::default();
    assert_eq!(d.accent, rgb(255, 170, 100));
    assert_eq!(d.secondary, rgb(100, 160, 220));
    assert_eq!(d.background, rgb(20, 25, 35));
    assert_eq!(d.text, rgb(220, 225, 230));
    assert_eq!(d.dim, rgb(120, 125, 135));
}

#[test]
fn colour_arithmetic_matches_the_formulas() {
    let c = rgb(100, 200, 50);
    assert_eq!(c.muted(), rgb(108, 158, 83));
    assert_eq!(c.lighten_tenths(4), rgb(162, 222, 132));
    assert_eq!(c.darken_tenths(6), rgb(40, 80, 20));
    assert_eq!(c.luminance_1000(), 299 * 100 + 587 * 200 + 114 * 50);
}

#[test]
fn terminal_escapes_spell_the_channels() {
    let c = rgb(1, 22, 255);
    assert_eq!(c.as_fg(), "\x1b[38;2;1;22;255m");
    assert_eq!(c.as_bg(), "\x1b[48;2;1;22;255m");
}

#[test]
fn uniform_image_theme_via_the_image_crate() {
    let img = image::DynamicImage::ImageRgb8(image::RgbImage::from_pixel(
        64,
        64,
        image::Rgb([200, 50, 50]),
    ));
    let p = extract_palette(&img);
    assert_eq!(p.accent, Rgb { r: 192, g: 48, b: 48 });
}
