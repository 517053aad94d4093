use gpbeam::capture::{capture_of, read_exif_datetime, resolve_capture, Captured};
use gpbeam::gopro::MediaKind;

use chrono::TimeZone;

#[test]
fn formats_a_known_unix_time() {
    let c = Captured::from_unix(1_609_459_200);
    assert_eq!(c.date.len(), 10);
    assert_eq!(c.time.len(), 6);
}

#[test]
fn a_known_unix_time_is_the_local_date_or_a_neighbour() {
    // 2021-01-01T00:00:00Z, in whatever zone the machine is.
    let c = Captured::from_unix(1_609_459_200);
    assert!(c.date == "2021-01-01" || c.date == "2020-12-31", "got {}", c.date);
    assert!(c.time.chars().all(|ch| ch.is_ascii_digit()));
    assert_ne!(c.date, Captured::from_unix(1_609_459_200 + 86_400).date);
}

/// The first and the last second of chrono's calendar.
const FIRST: i64 = -8_334_601_228_800;
const LAST: i64 = 8_210_266_876_799;

/// Times of all ages, with the turns of years and of leap days among them.
fn many_times() -> Vec<i64> {
    let mut out = vec![0, -1, 1_609_459_200, FIRST, LAST, -62_167_219_200, 253_402_300_800];
    for year in [1, 4, 100, 400, 1582, 1900, 1969, 1970, 1999, 2000, 2024, 2100, 9999, 10_000] {
        for (month, day) in [(1, 1), (2, 28), (3, 1), (12, 31)] {
            let noon = chrono::Utc.with_ymd_and_hms(year, month, day, 12, 34, 56).unwrap();
            out.extend([noon.timestamp(), noon.timestamp() + 86_400]);
        }
    }
    let mut secs = FIRST;
    while secs < LAST {
        out.push(secs);
        secs += 123_456_789_123;
    }
    out
}

#[test]
fn the_clock_at_an_offset_is_that_of_the_calendar() {
    for offset in [0, 1, -1, 3600, -3600, 20_700, 86_399, -86_399] {
        let zone = chrono::FixedOffset::east_opt(offset).unwrap();
        for secs in many_times() {
            let dt = zone.timestamp_opt(secs, 0).unwrap();
            let c = Captured::at_offset(secs, offset);
            assert_eq!(c.date, dt.format("%Y-%m-%d").to_string(), "{secs} {offset}");
            assert_eq!(c.time, dt.format("%H%M%S").to_string(), "{secs} {offset}");
        }
    }
}

#[test]
fn local_time_is_the_clock_at_the_offset_of_the_zone() {
    for secs in many_times() {
        let dt = chrono::Local.timestamp_opt(secs, 0).unwrap();
        let offset = dt.offset().local_minus_utc();
        assert_eq!(Captured::from_unix(secs), Captured::at_offset(secs, offset), "{secs}");
    }
}

#[test]
fn exact_dates_and_times() {
    let c = Captured::at_offset(1_609_459_200, 0);
    assert_eq!((c.date.as_str(), c.time.as_str()), ("2021-01-01", "000000"));
    let c = Captured::at_offset(951_827_696, 3600);
    assert_eq!((c.date.as_str(), c.time.as_str()), ("2000-02-29", "133456"));
    let c = Captured::at_offset(-1, 0);
    assert_eq!((c.date.as_str(), c.time.as_str()), ("1969-12-31", "235959"));
    assert_eq!(Captured::at_offset(253_402_300_800, 0).date, "+10000-01-01");
    assert_eq!(Captured::at_offset(-62_198_755_200, 0).date, "-0001-01-01");
}

#[test]
fn the_calendar_has_a_first_and_a_last_second() {
    assert_ne!(Captured::from_unix(FIRST), Captured::from_unix(0));
    assert_ne!(Captured::from_unix(LAST), Captured::from_unix(0));
    assert_eq!(Captured::from_unix(FIRST - 1), Captured::from_unix(0));
    assert_eq!(Captured::from_unix(LAST + 1), Captured::from_unix(0));
}

#[test]
fn an_impossible_time_falls_back_to_the_epoch() {
    assert_eq!(Captured::from_unix(i64::MAX), Captured::from_unix(0));
}

#[test]
fn parses_exif_datetime_string() {
    let c = Captured::from_exif("2026:06:01 14:30:55").unwrap();
    assert_eq!(c.date, "2026-06-01");
    assert_eq!(c.time, "143055");
}

#[test]
fn rejects_malformed_exif() {
    assert!(Captured::from_exif("not a date").is_none());
}

#[test]
fn rejects_exif_with_missing_or_strange_parts() {
    for s in [
        "",
        "2026:06:01",
        "2026:06 14:30:55",
        "2026:06:01 14:30",
        "2026::01 14:30:55",
        "2026:06:01 14:30:5x",
        "2026-06-01 14:30:55",
        "2026:06:01:02 14:30:55",
    ] {
        assert!(Captured::from_exif(s).is_none(), "{s:?}");
    }
    // Only the first space separates.
    assert!(Captured::from_exif("2026:06:01 14:30:55 ").is_none());
}

#[test]
fn a_photo_is_dated_by_its_exif_and_a_video_by_its_file() {
    let exif = Some("2026:06:01 14:30:55".to_string());
    let photo = resolve_capture(&exif, MediaKind::Photo, 0);
    assert_eq!(photo.date, "2026-06-01");
    let video = resolve_capture(&exif, MediaKind::Video, 1_609_459_200);
    assert_eq!(video, Captured::from_unix(1_609_459_200));
    let broken = resolve_capture(&Some("nonsense".to_string()), MediaKind::Photo, 1_609_459_200);
    assert_eq!(broken, Captured::from_unix(1_609_459_200));
    let none = resolve_capture(&None, MediaKind::Photo, 1_609_459_200);
    assert_eq!(none, Captured::from_unix(1_609_459_200));
}

/// The bytes of a little-endian image file whose EXIF data state one time.
fn image_taken_at(text: &str) -> Vec<u8> {
    let mut value = text.as_bytes().to_vec();
    value.push(0);
    let entry = |tag: u16, kind: u16, count: u32, at: u32| -> Vec<u8> {
        let mut e = tag.to_le_bytes().to_vec();
        e.extend(kind.to_le_bytes());
        e.extend(count.to_le_bytes());
        e.extend(at.to_le_bytes());
        e
    };
    let mut out = b"II\x2a\x00".to_vec();
    out.extend(8u32.to_le_bytes());
    out.extend(1u16.to_le_bytes());
    out.extend(entry(0x8769, 4, 1, 26));
    out.extend(0u32.to_le_bytes());
    out.extend(1u16.to_le_bytes());
    out.extend(entry(0x9003, 2, value.len() as u32, 44));
    out.extend(0u32.to_le_bytes());
    out.extend(value);
    out
}

#[test]
fn the_exif_time_of_an_image_is_read() {
    let image = image_taken_at("2026:06:01 14:30:55");
    assert_eq!(read_exif_datetime(&image).as_deref(), Some("2026:06:01 14:30:55"));
    assert_eq!(
        capture_of(&image, MediaKind::Photo, 0),
        Captured { date: "2026-06-01".into(), time: "143055".into() }
    );
    assert_eq!(read_exif_datetime(b"no image"), None);
    assert_eq!(read_exif_datetime(&[]), None);
}

#[test]
fn only_photos_go_by_their_exif_time() {
    let image = image_taken_at("2026:06:01 14:30:55");
    assert_eq!(capture_of(&image, MediaKind::Video, 86_400), Captured::from_unix(86_400));
    assert_eq!(capture_of(b"", MediaKind::Photo, 86_400), Captured::from_unix(86_400));
    assert_eq!(
        capture_of(&image_taken_at("soon"), MediaKind::Photo, 86_400),
        Captured::from_unix(86_400)
    );
}
