use wallpaper_slideshow::color::ColorPalette;
use wallpaper_slideshow::exif::{extract, RawTags};
use wallpaper_slideshow::panel::{compose_panel, format_size, truncate, ImageMeta};

#[test]
fn truncation_keeps_short_text() {
    assert_eq!(truncate("short", 10), "short");
    assert_eq!(truncate("exactly10!", 10), "exactly10!");
}

#[test]
fn truncation_cuts_with_an_ellipsis() {
    assert_eq!(truncate("a rather long name", 10), "a rathe...");
    assert_eq!(truncate("abcdef", 3), "abc");
    assert_eq!(truncate("abcdef", 0), "");
}

#[test]
fn sizes_format_per_magnitude() {
    assert_eq!(format_size(500), "500 B");
    assert_eq!(format_size(0), "0 B");
    assert_eq!(format_size(2048), "2 KB");
    assert_eq!(format_size(1536), "2 KB");
    assert_eq!(format_size(5 * 1048576 + 524288), "5.5 MB");
    assert_eq!(format_size(1610612736), "1.50 GB");
    assert_eq!(format_size(1073741824), "1.00 GB");
}

fn empty_tags() -> RawTags {
    RawTags {
        datetime: None,
        make: None,
        model: None,
        lens: None,
        exposure: None,
        f_number: None,
        iso: None,
        focal_length: None,
        gps_lat: None,
        gps_lat_ref: None,
        gps_lon: None,
        gps_lon_ref: None,
    }
}

#[test]
fn panel_places_frame_and_help() {
    let mut tags = empty_tags();
    tags.make = Some("Sony".to_string());
    tags.model = Some("A7".to_string());
    tags.iso = Some(100);
    let info = extract(&tags);
    let meta = ImageMeta { width: 6000, height: 4000, file_size: 2048 };
    let pal = ColorPalette::default();
    let spans = compose_panel("photo.jpg", &info, meta, pal, 80, 24, 12, "2/5");

    // 13 background rows (12..=24), border, title, position, dimensions,
    // camera, settings, help.
    assert_eq!(spans.len(), 13 + 4 + 2 + 1);
    // Background fill starts at the panel's first row, column 1.
    assert_eq!((spans[0].row, spans[0].col), (12, 1));
    assert_eq!(spans[12].row, 24);
    // The border row follows the fill.
    assert_eq!((spans[13].row, spans[13].col), (12, 1));
    assert!(spans[13].text.contains('\u{2500}'));
    // Title carries the file name.
    assert_eq!((spans[14].row, spans[14].col), (13, 3));
    assert!(spans[14].text.contains("photo.jpg"));
    // Position tag sits right-aligned: 80 - (3 + 5) = 72.
    assert_eq!((spans[15].row, spans[15].col), (13, 72));
    assert!(spans[15].text.contains("[2/5]"));
    // Dimensions and size.
    assert!(spans[16].text.contains("6000x4000"));
    assert!(spans[16].text.contains("2 KB"));
    // Camera on the right column.
    assert_eq!((spans[17].row, spans[17].col), (15, 40));
    assert!(spans[17].text.contains("Sony A7"));
    // Settings line carries the sensitivity.
    assert_eq!((spans[18].row, spans[18].col), (16, 40));
    assert!(spans[18].text.contains("ISO 100"));
    // Help bar on the bottom row, without the map hints.
    let help = &spans[19];
    assert_eq!((help.row, help.col), (24, 3));
    assert!(help.text.contains("Navigate"));
    assert!(help.text.contains("Quit"));
    assert!(!help.text.contains("Maps"));
}

#[test]
fn panel_with_gps_offers_the_map_keys() {
    let mut tags = empty_tags();
    tags.datetime = Some("2021:03:05 14:30:21".to_string());
    tags.gps_lat = Some(wallpaper_slideshow::exif::GpsDms {
        d_num: 59,
        d_den: 1,
        m_num: 56,
        m_den: 1,
        s_num: 30,
        s_den: 1,
    });
    tags.gps_lat_ref = Some("N".to_string());
    tags.gps_lon = Some(wallpaper_slideshow::exif::GpsDms {
        d_num: 10,
        d_den: 1,
        m_num: 45,
        m_den: 1,
        s_num: 0,
        s_den: 1,
    });
    tags.gps_lon_ref = Some("E".to_string());
    let info = extract(&tags);
    let meta = ImageMeta { width: 100, height: 100, file_size: 10 };
    let spans = compose_panel("p.jpg", &info, meta, ColorPalette::default(), 80, 24, 12, "1/1");
    let all_text: String = spans.iter().map(|s| s.text.as_str()).collect();
    assert!(all_text.contains("When"));
    assert!(all_text.contains("March 5, 2021 at 14:30"));
    assert!(all_text.contains("Where"));
    assert!(all_text.contains("for Maps"));
    let help = spans.last().unwrap();
    assert!(help.text.contains("Maps"));
    assert!(help.text.contains("Copy"));
}
