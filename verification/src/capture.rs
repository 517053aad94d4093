//! When a file was captured.

use crate::calendar::{
    a_clock_has_six_characters, a_common_date_has_ten_characters, civil_date, clock_of_second,
    clock_text, date_of_day, day_number, days_before_month,
};
use crate::gopro::MediaKind;
use crate::text::{
    all_digits, cut_first, is_digit, is_digit_char, opt_view, pieces, split_on, split_once,
    to_chars, views,
};
use chrono::TimeZone;
use vstd::prelude::*;

verus! {

/// A date such as `2026-06-01` and a time such as `143055`.
#[derive(Debug, Clone, PartialEq, Eq)]
pub struct Captured<S = String> {
    pub date: S,
    pub time: S,
}

impl View for Captured<String> {
    type V = Captured<Seq<char>>;

    open spec fn view(&self) -> Captured<Seq<char>> {
        Captured { date: self.date@, time: self.time@ }
    }
}

/// Three runs of digits with a colon between each two.
pub open spec fn three_numbers(s: Seq<char>) -> bool {
    let p = pieces(s, ':');
    p.len() == 3 && all_digits(p[0]) && all_digits(p[1]) && all_digits(p[2])
}

/// The capture time that the EXIF text `YYYY:MM:DD HH:MM:SS` stands for.
pub open spec fn exif_capture(s: Seq<char>) -> Option<Captured<Seq<char>>> {
    match cut_first(s, ' ') {
        Some((date, time)) => {
            if three_numbers(date) && three_numbers(time) {
                let d = pieces(date, ':');
                let t = pieces(time, ':');
                Some(
                    Captured {
                        date: d[0] + "-"@ + d[1] + "-"@ + d[2],
                        time: t[0] + t[1] + t[2],
                    },
                )
            } else {
                None
            }
        },
        None => None,
    }
}

/// True of one or more digits.
fn is_number(s: &str) -> (r: bool)
    ensures
        r == all_digits(s@),
{
    let v = to_chars(s);
    if v.len() == 0 {
        return false;
    }
    let mut i: usize = 0;
    while i < v.len()
        invariant
            i <= v@.len(),
            v@ == s@,
            forall|j: int| 0 <= j < i ==> is_digit(#[trigger] s@[j]),
        decreases v.len() - i,
    {
        if !is_digit_char(v[i]) {
            assert(!is_digit(s@[i as int]));
            return false;
        }
        i += 1;
    }
    true
}

/// The three runs of digits of `s`, if that is what it is.
fn three(s: &str) -> (r: Option<Vec<String>>)
    ensures
        match r {
            Some(v) => three_numbers(s@) && views(v@) == pieces(s@, ':') && v@.len() == 3,
            None => !three_numbers(s@),
        },
{
    let v = split_on(s, ':');
    assert(views(v@).len() == v@.len());
    if v.len() != 3 {
        return None;
    }
    assert(views(v@)[0] == v@[0]@ && views(v@)[1] == v@[1]@ && views(v@)[2] == v@[2]@);
    if is_number(v[0].as_str()) && is_number(v[1].as_str()) && is_number(v[2].as_str()) {
        Some(v)
    } else {
        None
    }
}

// ---- times of the clock -----------------------------------------------------

/// The date and the time of day of a Unix time where the clock is `offset` seconds
/// ahead of UTC.
pub open spec fn captured_at(secs: int, offset: int) -> Captured<Seq<char>> {
    Captured {
        date: civil_date((secs + offset) / 86_400),
        time: clock_text((secs + offset) % 86_400),
    }
}

/// True of a Unix time that chrono's calendar holds: it lies in one of the years
/// -262143 to 262142, in UTC.
pub open spec fn in_calendar(secs: int) -> bool {
    day_number(-262_143, 1, 1) <= secs / 86_400 <= day_number(262_142, 12, 31)
}

/// `chrono::Local.timestamp_opt(secs, 0)`, written by `DateTime::format` as
/// `%Y-%m-%d` and `%H%M%S`. It is `None` exactly for a time outside chrono's
/// calendar. Otherwise it is the date and the time of day where the clock is some
/// whole number of seconds, less than a day, ahead of or behind UTC. Which number
/// depends on the time zone of the machine and is not said.
#[verifier::external_body]
pub(crate) fn local_date_and_time(secs: i64) -> (r: Option<(String, String)>)
    ensures
        r is Some <==> in_calendar(secs as int),
        r matches Some((date, time)) ==> exists|offset: int|
            -86_400 < offset < 86_400 && (Captured { date: date@, time: time@ })
                == #[trigger] captured_at(secs as int, offset),
{
    let dt = chrono::Local.timestamp_opt(secs, 0).single()?;
    Some((dt.format("%Y-%m-%d").to_string(), dt.format("%H%M%S").to_string()))
}

/// Asks a clock for a Unix time.
fn ask<C: Fn(i64) -> Option<(String, String)>>(clock: C, secs: i64) -> (r: Option<(String, String)>)
    requires
        call_requires(clock, (secs,)),
    ensures
        call_ensures(clock, (secs,), r),
{
    clock(secs)
}

/// True of a date and a time of day that the local clock of the machine gives for a
/// Unix time: they are what `local_date_and_time` returned when it was asked for that
/// very time. Nothing else makes this true, so a date from another source is none.
pub closed spec fn clock_gives(secs: i64, c: Captured<Seq<char>>) -> bool {
    exists|r: Option<(String, String)>|
        call_ensures(local_date_and_time, (secs,), r) && r is Some && #[trigger] shown_by(r) == c
}

/// The date and the time of day that the clock wrote.
spec fn shown_by(r: Option<(String, String)>) -> Captured<Seq<char>> {
    Captured { date: (r->0).0@, time: (r->0).1@ }
}

/// The Unix time, or the epoch in place of one beyond the calendar.
pub open spec fn shown_secs(secs: i64) -> i64 {
    if in_calendar(secs as int) {
        secs
    } else {
        0
    }
}

/// True of the local date and time of a Unix time, which the clock of the machine
/// gives: they are those of a clock less than a day ahead of or behind UTC. For a time
/// beyond the calendar they are those of the epoch.
pub open spec fn local_capture(secs: i64, c: Captured<Seq<char>>) -> bool {
    &&& clock_gives(shown_secs(secs), c)
    &&& exists|offset: int|
        -86_400 < offset < 86_400 && c == #[trigger] captured_at(shown_secs(secs) as int, offset)
}

/// What the local clock gives for a Unix time is the date and the time of day that were
/// written when it was asked for that time.
pub(crate) proof fn the_clock_was_asked(secs: i64, c: Captured<Seq<char>>)
    requires
        clock_gives(secs, c),
    ensures
        exists|r: Option<(String, String)>| #[trigger]
            call_ensures(local_date_and_time, (secs,), r) && r is Some && (r->0).0@ == c.date && (
            r->0).1@ == c.time,
{
    let r = choose|r: Option<(String, String)>|
        call_ensures(local_date_and_time, (secs,), r) && r is Some && #[trigger] shown_by(r) == c;
    assert(call_ensures(local_date_and_time, (secs,), r));
}

/// A file that is not dated by its EXIF text has the date and the time of day that the
/// clock of the machine gives for its modification time, whatever the file; only a
/// time that no calendar holds is shown as the epoch.
pub proof fn a_local_time_is_that_of_the_clock(secs: i64, c: Captured<Seq<char>>)
    requires
        local_capture(secs, c),
    ensures
        day_number(-262_143, 1, 1) <= secs as int / 86_400 <= day_number(262_142, 12, 31)
            ==> clock_gives(secs, c) && exists|offset: int|
            -86_400 < offset < 86_400 && c.date == #[trigger] civil_date((secs + offset) / 86_400)
                && c.time == clock_text((secs + offset) % 86_400),
{
    if in_calendar(secs as int) {
        let offset = choose|offset: int|
            -86_400 < offset < 86_400 && c == #[trigger] captured_at(
                shown_secs(secs) as int,
                offset,
            );
        assert(c.date == civil_date((secs + offset) / 86_400));
    }
}

proof fn lemma_shift(t: int, days: int)
    ensures
        (t + 86_400 * days) / 86_400 == t / 86_400 + days,
        (t + 86_400 * days) % 86_400 == t % 86_400,
{
}

proof fn lemma_epoch()
    ensures
        in_calendar(0),
{
    reveal_with_fuel(days_before_month, 13);
}

/// A Unix time from 1970 to 9999 has a date of ten characters and a time of six.
pub proof fn a_common_time_has_its_shape(secs: i64, c: Captured<Seq<char>>)
    requires
        0 <= secs,
        secs / 86_400 < day_number(9999, 12, 31),
        local_capture(secs, c),
    ensures
        c.date.len() == 10,
        c.time.len() == 6,
{
    lemma_epoch();
    reveal_with_fuel(days_before_month, 13);
    let shown = shown_secs(secs) as int;
    let offset = choose|offset: int|
        -86_400 < offset < 86_400 && c == #[trigger] captured_at(shown, offset);
    a_common_date_has_ten_characters((shown + offset) / 86_400);
    a_clock_has_six_characters((shown + offset) % 86_400);
}

impl Captured<String> {
    /// The date and the time of day of a Unix time where the clock is `offset`
    /// seconds ahead of UTC.
    pub fn at_offset(secs: i64, offset: i32) -> (r: Captured)
        requires
            -86_400 < offset < 86_400,
        ensures
            r@ == captured_at(secs as int, offset as int),
    {
        // Counted from an earlier day, no time is negative.
        let earlier: i128 = 86_400 * 150_000_000_000_000i128;
        let shifted: u128 = (secs as i128 + offset as i128 + earlier) as u128;
        let number: i64 = (shifted / 86_400) as i64 - 150_000_000_000_000;
        let second: u32 = (shifted % 86_400) as u32;
        proof {
            lemma_shift(secs + offset, 150_000_000_000_000);
        }
        Captured { date: date_of_day(number), time: clock_of_second(second) }
    }

    /// The local date and time of a Unix time; those of the epoch for a time
    /// beyond the calendar.
    pub fn from_unix(secs: i64) -> (r: Captured)
        ensures
            local_capture(secs, r@),
    {
        let given = ask(local_date_and_time, secs);
        let ghost g = given;
        match given {
            Some((date, time)) => {
                proof {
                    let shown = Captured { date: date@, time: time@ };
                    assert(shown_by(g) == shown);
                    let offset = choose|offset: int|
                        -86_400 < offset < 86_400 && shown == #[trigger] captured_at(
                            secs as int,
                            offset,
                        );
                    assert(shown == captured_at(shown_secs(secs) as int, offset));
                }
                Captured { date, time }
            },
            None => {
                proof {
                    lemma_epoch();
                }
                let epoch = ask(local_date_and_time, 0);
                let ghost e = epoch;
                let (date, time) = epoch.unwrap();
                proof {
                    assert(shown_by(e) == (Captured { date: date@, time: time@ }));
                    let shown = Captured { date: date@, time: time@ };
                    let offset = choose|offset: int|
                        -86_400 < offset < 86_400 && shown == #[trigger] captured_at(0, offset);
                    assert(shown == captured_at(shown_secs(secs) as int, offset));
                }
                Captured { date, time }
            },
        }
    }

    /// Reads an EXIF text `YYYY:MM:DD HH:MM:SS`.
    pub fn from_exif(s: &str) -> (r: Option<Captured>)
        ensures
            match r {
                Some(c) => exif_capture(s@) == Some(c@),
                None => exif_capture(s@) is None,
            },
    {
        match split_once(s, ' ') {
            Some((date, time)) => {
                let d = match three(date.as_str()) {
                    Some(d) => d,
                    None => return None,
                };
                let t = match three(time.as_str()) {
                    Some(t) => t,
                    None => return None,
                };
                let mut out_date = d[0].clone();
                out_date.append("-");
                out_date.append(d[1].as_str());
                out_date.append("-");
                out_date.append(d[2].as_str());
                let mut out_time = t[0].clone();
                out_time.append(t[1].as_str());
                out_time.append(t[2].as_str());
                proof {
                    assert(views(d@)[0] == d@[0]@ && views(d@)[1] == d@[1]@ && views(d@)[2]
                        == d@[2]@);
                    assert(views(t@)[0] == t@[0]@ && views(t@)[1] == t@[1]@ && views(t@)[2]
                        == t@[2]@);
                }
                Some(Captured { date: out_date, time: out_time })
            },
            None => None,
        }
    }
}

/// The text of the EXIF field `DateTimeOriginal` in the bytes of an image, if it
/// has one.
pub uninterp spec fn exif_original_time(image: Seq<u8>) -> Option<Seq<char>>;

/// `exif::Reader::read_from_container`, `Exif::get_field` for the field
/// `DateTimeOriginal` of the main image, and the first text that the field holds.
/// It is `None` where the bytes are no image that the crate knows, where the field
/// is missing, and where it holds no text; which text it is follows from the
/// bytes, and is named `exif_original_time`.
#[verifier::external_body]
fn original_time(image: &[u8]) -> (r: Option<String>)
    ensures
        opt_view(r) == exif_original_time(image@),
{
    let exif = exif::Reader::new().read_from_container(&mut std::io::Cursor::new(image)).ok()?;
    match &exif.get_field(exif::Tag::DateTimeOriginal, exif::In::PRIMARY)?.value {
        exif::Value::Ascii(texts) => {
            texts.first().map(|t| String::from_utf8_lossy(t).into_owned())
        },
        _ => None,
    }
}

/// The EXIF text of an image, which says when it was taken.
pub fn read_exif_datetime(image: &[u8]) -> (r: Option<String>)
    ensures
        opt_view(r) == exif_original_time(image@),
{
    original_time(image)
}

/// The EXIF time of a file: that of a photo whose EXIF text is there and can be
/// read.
pub open spec fn photo_capture(kind: MediaKind, exif: Option<Seq<char>>) -> Option<
    Captured<Seq<char>>,
> {
    if kind == MediaKind::Photo && exif is Some {
        exif_capture(exif->0)
    } else {
        None
    }
}

/// Resolves when a file was captured: the EXIF time of a photo, where there is
/// one, and the modification time of everything else.
pub fn resolve_capture(exif: &Option<String>, kind: MediaKind, mtime_unix: i64) -> (r: Captured)
    ensures
        match photo_capture(kind, opt_view(*exif)) {
            Some(c) => r@ == c,
            None => local_capture(mtime_unix, r@),
        },
{
    if kind.is_photo() {
        if let Some(s) = exif {
            if let Some(c) = Captured::from_exif(s.as_str()) {
                return c;
            }
        }
    }
    Captured::from_unix(mtime_unix)
}

/// Resolves when a file was captured, given its bytes where it is a photo.
pub fn capture_of(image: &[u8], kind: MediaKind, mtime_unix: i64) -> (r: Captured)
    ensures
        match photo_capture(kind, exif_original_time(image@)) {
            Some(c) => r@ == c,
            None => local_capture(mtime_unix, r@),
        },
{
    resolve_capture(&read_exif_datetime(image), kind, mtime_unix)
}

} // verus!
