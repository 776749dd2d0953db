use wallpaper_slideshow::exif::{
    extract, format_datetime, format_gps_coordinates, parse_hour_from_datetime, GpsDms, RawTags,
};

fn no_tags() -> RawTags {
    RawTags {
        datetime: None,
        make: None,
        model: None,
        lens: None,
        exposure: None,
        f_number: None,
        iso: None,
        focal_length: None,
        gps_lat: None,
        gps_lat_ref: None,
        gps_lon: None,
        gps_lon_ref: None,
    }
}

fn whole(d: u32, m: u32, s: u32) -> GpsDms {
    GpsDms { d_num: d, d_den: 1, m_num: m, m_den: 1, s_num: s, s_den: 1 }
}

#[test]
fn hour_parses_from_well_formed_stamps() {
    assert_eq!(parse_hour_from_datetime("2021:03:05 14:30:21"), Some(14));
    assert_eq!(parse_hour_from_datetime("2021:03:05 00:00:00"), Some(0));
    assert_eq!(parse_hour_from_datetime("2021:03:05 23:59:59"), Some(23));
}

#[test]
fn hour_rejects_malformed_stamps() {
    assert_eq!(parse_hour_from_datetime("2021:03:05 24:00:00"), None);
    assert_eq!(parse_hour_from_datetime("2021:03:05 x4:00:00"), None);
    assert_eq!(parse_hour_from_datetime("short"), None);
    assert_eq!(parse_hour_from_datetime(""), None);
}

#[test]
fn datetime_display_is_human() {
    assert_eq!(format_datetime("2021:03:05 14:30:21"), "March 5, 2021 at 14:30");
    assert_eq!(format_datetime("1999:12:31 23:59:59"), "December 31, 1999 at 23:59");
    assert_eq!(format_datetime("2021:13:05 14:30:21"), "13 5, 2021 at 14:30");
    assert_eq!(format_datetime("too short"), "too short");
}

#[test]
fn camera_line_merges_make_and_model() {
    let mut t = no_tags();
    t.make = Some("SONY ".to_string());
    t.model = Some("ILCE-7M3".to_string());
    assert_eq!(extract(&t).camera.as_deref(), Some("SONY ILCE-7M3"));

    let mut t = no_tags();
    t.make = Some("Canon".to_string());
    t.model = Some("Canon EOS R5".to_string());
    assert_eq!(extract(&t).camera.as_deref(), Some("Canon EOS R5"));

    let mut t = no_tags();
    t.make = Some("Nikon ".to_string());
    assert_eq!(extract(&t).camera.as_deref(), Some("Nikon"));
}

#[test]
fn exposure_figures_are_formatted() {
    let mut t = no_tags();
    t.f_number = Some((28, 10));
    t.iso = Some(200);
    t.focal_length = Some((35, 1));
    t.exposure = Some("1/250 s".to_string());
    t.lens = Some(" FE 35mm F1.8 ".to_string());
    let info = extract(&t);
    assert_eq!(info.aperture.as_deref(), Some("f/2.8"));
    assert_eq!(info.iso.as_deref(), Some("ISO 200"));
    assert_eq!(info.focal_length.as_deref(), Some("35mm"));
    assert_eq!(info.exposure.as_deref(), Some("1/250 s"));
    assert_eq!(info.lens.as_deref(), Some("FE 35mm F1.8"));
}

#[test]
fn zero_denominators_drop_the_figure() {
    let mut t = no_tags();
    t.f_number = Some((28, 0));
    t.focal_length = Some((35, 0));
    let info = extract(&t);
    assert_eq!(info.aperture, None);
    assert_eq!(info.focal_length, None);
}

#[test]
fn gps_resolves_to_micro_degrees_and_display() {
    let mut t = no_tags();
    t.datetime = Some("2021:03:05 14:30:21".to_string());
    t.gps_lat = Some(whole(59, 56, 30));
    t.gps_lat_ref = Some("N".to_string());
    t.gps_lon = Some(whole(10, 45, 0));
    t.gps_lon_ref = Some("E".to_string());
    let info = extract(&t);
    assert_eq!(info.gps_latitude, Some(59_941_666));
    assert_eq!(info.gps_longitude, Some(10_750_000));
    assert_eq!(info.location.as_deref(), Some("59deg56'30.0\"N 10deg45'0.0\"E"));
    assert_eq!(info.hour, Some(14));
    assert_eq!(info.datetime.as_deref(), Some("March 5, 2021 at 14:30"));
    assert_eq!(info.datetime_raw.as_deref(), Some("2021:03:05 14:30:21"));
    assert!(info.has_gps());
    assert_eq!(
        info.maps_url().as_deref(),
        Some("https://maps.google.com/?q=59.941666,10.750000")
    );
}

#[test]
fn south_and_west_negate() {
    let mut t = no_tags();
    t.gps_lat = Some(whole(33, 52, 0));
    t.gps_lat_ref = Some("S".to_string());
    t.gps_lon = Some(whole(151, 12, 0));
    t.gps_lon_ref = Some("W".to_string());
    let info = extract(&t);
    assert_eq!(info.gps_latitude, Some(-33_866_666));
    assert_eq!(info.gps_longitude, Some(-151_200_000));
    assert_eq!(
        info.maps_url().as_deref(),
        Some("https://maps.google.com/?q=-33.866666,-151.200000")
    );
    assert_eq!(format_gps_coordinates(-33_866_666, -151_200_000),
        "33deg51'60.0\"S 151deg12'0.0\"W");
}

#[test]
fn missing_reference_leaves_gps_out() {
    let mut t = no_tags();
    t.gps_lat = Some(whole(10, 0, 0));
    t.gps_lon = Some(whole(20, 0, 0));
    let info = extract(&t);
    assert!(!info.has_gps());
    assert_eq!(info.location, None);
    assert_eq!(info.maps_url(), None);
}

#[test]
fn empty_record_interprets_to_nothing() {
    let info = extract(&no_tags());
    assert_eq!(info.hour, None);
    assert_eq!(info.camera, None);
    assert_eq!(info.datetime, None);
    assert_eq!(info.location, None);
}
