//! Short texts the screens show: file and storage sizes, signal strength, counted
//! nouns, how a finish day reads, and which sleep image a rotation picks.

use vstd::prelude::*;
use crate::settings::ImageRotation;
use crate::textutil::{decimal, owned, push_decimal, push_str};

verus! {

/// A book file's size: tenths of a megabyte from one megabyte up, else whole kilobytes
/// (rounded down).
pub open spec fn spec_size_text(bytes: nat) -> Seq<char> {
    if bytes >= 1048576 {
        decimal(bytes / 1048576) + "."@ + decimal((bytes % 1048576) * 10 / 1048576) + " MB"@
    } else {
        decimal(bytes / 1024) + " KB"@
    }
}

/// "1.4 MB" / "312 KB", for the book's information page.
pub fn size_text(bytes: u64) -> (s: String)
    ensures
        s@ == spec_size_text(bytes as nat),
{
    let mut s = String::new();
    if bytes >= 1024 * 1024 {
        push_decimal(&mut s, bytes / (1024 * 1024));
        push_str(&mut s, ".");
        push_decimal(&mut s, (bytes % (1024 * 1024)) * 10 / (1024 * 1024));
        push_str(&mut s, " MB");
    } else {
        push_decimal(&mut s, bytes / 1024);
        push_str(&mut s, " KB");
    }
    assert(s@ =~= spec_size_text(bytes as nat));
    s
}

/// A folder's size: as a book file's, but the kilobytes rounded up.
pub open spec fn spec_folder_size_text(bytes: nat) -> Seq<char> {
    if bytes >= 1048576 {
        decimal(bytes / 1048576) + "."@ + decimal((bytes % 1048576) * 10 / 1048576) + " MB"@
    } else {
        decimal((bytes + 1023) / 1024) + " KB"@
    }
}

/// "1.4 MB" / "313 KB", for the folders list.
pub fn folder_size_text(bytes: u64) -> (s: String)
    ensures
        s@ == spec_folder_size_text(bytes as nat),
{
    let mut s = String::new();
    if bytes >= 1024 * 1024 {
        push_decimal(&mut s, bytes / (1024 * 1024));
        push_str(&mut s, ".");
        push_decimal(&mut s, (bytes % (1024 * 1024)) * 10 / (1024 * 1024));
        push_str(&mut s, " MB");
    } else {
        push_decimal(&mut s, (bytes + 1023) / 1024);
        push_str(&mut s, " KB");
    }
    assert(s@ =~= spec_folder_size_text(bytes as nat));
    s
}

/// Storage on the card: tenths of a gigabyte from one gigabyte up, whole kilobytes below
/// a megabyte, else whole megabytes.
pub open spec fn spec_storage_text(b: nat) -> Seq<char> {
    if b >= 1073741824 {
        decimal(b / 1073741824) + "."@ + decimal((b % 1073741824) * 10 / 1073741824) + " GB"@
    } else if b < 1048576 {
        decimal(b / 1024) + " KB"@
    } else {
        decimal(b / 1048576) + " MB"@
    }
}

/// "3.7 GB" / "812 MB" / "40 KB", for the About page.
pub fn storage_text(b: u64) -> (s: String)
    ensures
        s@ == spec_storage_text(b as nat),
{
    let mut s = String::new();
    if b >= 1024 * 1024 * 1024 {
        push_decimal(&mut s, b / (1024 * 1024 * 1024));
        push_str(&mut s, ".");
        push_decimal(&mut s, (b % (1024 * 1024 * 1024)) * 10 / (1024 * 1024 * 1024));
        push_str(&mut s, " GB");
    } else if b < 1024 * 1024 {
        push_decimal(&mut s, b / 1024);
        push_str(&mut s, " KB");
    } else {
        push_decimal(&mut s, b / (1024 * 1024));
        push_str(&mut s, " MB");
    }
    assert(s@ =~= spec_storage_text(b as nat));
    s
}

/// Signal strength as a word.
pub open spec fn signal_word(s: u8) -> Seq<char> {
    if s == 0 {
        "faint"@
    } else if s == 1 {
        "weak"@
    } else if s == 2 {
        "fair"@
    } else if s == 3 {
        "good"@
    } else {
        "strong"@
    }
}

/// Signal strength as a word (the mono face has no bar glyphs).
pub fn signal_bars(s: u8) -> (r: String)
    ensures
        r@ == signal_word(s),
{
    let mut r = String::new();
    push_str(
        &mut r,
        match s {
            0 => "faint",
            1 => "weak",
            2 => "fair",
            3 => "good",
            _ => "strong",
        },
    );
    r
}

/// A count with its noun: "1 entry", "3 entries".
pub fn plural(n: usize, one: &str, many: &str) -> (s: String)
    ensures
        s@ == (if n == 1 { "1 "@ + one@ } else { decimal(n as nat) + " "@ + many@ }),
{
    let mut s = String::new();
    if n == 1 {
        push_str(&mut s, "1 ");
        push_str(&mut s, one);
    } else {
        push_decimal(&mut s, n as u64);
        push_str(&mut s, " ");
        push_str(&mut s, many);
    }
    s
}

/// A rotation asks for a random number only when it picks a new image each sleep.
pub fn needs_random(rotation: ImageRotation) -> (b: bool)
    ensures
        b == (rotation == ImageRotation::EachSleep),
{
    match rotation {
        ImageRotation::EachSleep => true,
        _ => false,
    }
}

/// The pick a rotation makes among `n` images: the fixed choice (the first without one),
/// the day's, or the random number's.
pub fn rotate(rotation: ImageRotation, n: usize, fixed: Option<usize>, day: u16, random: u32) -> (i: usize)
    requires
        n > 0,
    ensures
        i == (match rotation {
            ImageRotation::Fixed => match fixed {
                Some(f) => f,
                None => 0usize,
            },
            ImageRotation::Daily => (day as usize % n) as usize,
            ImageRotation::EachSleep => (random as usize % n) as usize,
        }),
{
    match rotation {
        ImageRotation::Fixed => match fixed {
            Some(f) => f,
            None => 0,
        },
        ImageRotation::Daily => day as usize % n,
        ImageRotation::EachSleep => random as usize % n,
    }
}

/// How a finish day reads from `today`: today, tomorrow, a weekday within the week,
/// else a date. The names of weekdays and the form of dates are the calendar's.
#[derive(Clone, Copy, Debug, PartialEq, Eq, Structural)]
pub enum FinishWhen {
    /// The day is today (or past).
    Today,
    /// The day is tomorrow.
    Tomorrow,
    /// The day, two to six days ahead: named by its weekday.
    Weekday(u16),
    /// The day, a week or more ahead: named by its date.
    Date(u16),
}

/// How finish day `day` reads from `today` (a day in the past reads as today).
pub open spec fn when_finish(today: u16, day: u16) -> FinishWhen {
    if day <= today {
        FinishWhen::Today
    } else if day == today + 1 {
        FinishWhen::Tomorrow
    } else if day <= today + 6 {
        FinishWhen::Weekday(day)
    } else {
        FinishWhen::Date(day)
    }
}

/// How finish day `day` reads from `today` (a day in the past reads as today).
pub fn finish_when(today: u16, day: u16) -> (w: FinishWhen)
    ensures
        w == when_finish(today, day),
        day <= today ==> w == FinishWhen::Today,
        day == today + 1 ==> w == FinishWhen::Tomorrow,
        today + 2 <= day <= today + 6 ==> w == FinishWhen::Weekday(day),
        day >= today + 7 ==> w == FinishWhen::Date(day),
{
    let d = day.saturating_sub(today);
    match d {
        0 => FinishWhen::Today,
        1 => FinishWhen::Tomorrow,
        2..=6 => FinishWhen::Weekday(day),
        _ => FinishWhen::Date(day),
    }
}

/// The word for a finish day: "today", "tomorrow", else `name`, the calendar's name for
/// the day (its weekday within the week, else its date).
pub open spec fn spec_finish_word(today: u16, day: u16, name: Seq<char>) -> Seq<char> {
    match when_finish(today, day) {
        FinishWhen::Today => "today"@,
        FinishWhen::Tomorrow => "tomorrow"@,
        _ => name,
    }
}

/// The word for a finish day (see [`spec_finish_word`]).
pub fn finish_word(today: u16, day: u16, name: &str) -> (r: String)
    ensures
        r@ == spec_finish_word(today, day, name@),
{
    match finish_when(today, day) {
        FinishWhen::Today => owned("today"),
        FinishWhen::Tomorrow => owned("tomorrow"),
        _ => owned(name),
    }
}

/// The finish line: "Finish today", or "Finish by " and the finish word.
pub fn finish_by_line(today: u16, day: u16, name: &str) -> (r: String)
    ensures
        r@ == (if when_finish(today, day) == FinishWhen::Today {
            "Finish today"@
        } else {
            "Finish by "@ + spec_finish_word(today, day, name@)
        }),
{
    if finish_when(today, day) == FinishWhen::Today {
        return owned("Finish today");
    }
    let mut r = owned("Finish by ");
    let w = finish_word(today, day, name);
    push_str(&mut r, w.as_str());
    r
}

/// The short word for poster tiles: "Today", "Tmrw", else `name`, the calendar's short
/// name for the day (its weekday within the week, else its date).
pub fn finish_short(today: u16, day: u16, name: &str) -> (r: String)
    ensures
        r@ == match when_finish(today, day) {
            FinishWhen::Today => "Today"@,
            FinishWhen::Tomorrow => "Tmrw"@,
            _ => name@,
        },
{
    match finish_when(today, day) {
        FinishWhen::Today => owned("Today"),
        FinishWhen::Tomorrow => owned("Tmrw"),
        _ => owned(name),
    }
}

/// A series place: a whole number, or one decimal (`index` counts tenths).
pub open spec fn spec_series_place(index: u16) -> Seq<char> {
    if index % 10 == 0 {
        decimal((index / 10) as nat)
    } else {
        decimal((index / 10) as nat) + "."@ + decimal((index % 10) as nat)
    }
}

/// A book's year and series line: "1851 · " before the series, which reads as its name
/// and place ("Dune · 2", "Discworld · 1.5"), its name alone at place 0, or "no series".
pub open spec fn spec_series_line(year: Option<u16>, series: Option<(Seq<char>, u16)>) -> Seq<char> {
    let y = match year {
        Some(y) => decimal(y as nat) + " · "@,
        None => Seq::empty(),
    };
    let s = match series {
        Some((n, i)) => if i > 0 {
            n + " · "@ + spec_series_place(i)
        } else {
            n
        },
        None => "no series"@,
    };
    y + s
}

/// The year and series line of a book's page (see [`spec_series_line`]).
pub fn series_line(year: Option<u16>, series: Option<(&str, u16)>) -> (r: String)
    ensures
        r@ == spec_series_line(year, match series {
            Some((n, i)) => Some((n@, i)),
            None => None,
        }),
{
    let mut r = String::new();
    match year {
        Some(y) => {
            push_decimal(&mut r, y as u64);
            push_str(&mut r, " · ");
        },
        None => {},
    }
    match series {
        Some((n, i)) => {
            push_str(&mut r, n);
            if i > 0 {
                push_str(&mut r, " · ");
                push_decimal(&mut r, (i / 10) as u64);
                if i % 10 != 0 {
                    push_str(&mut r, ".");
                    push_decimal(&mut r, (i % 10) as u64);
                }
            }
        },
        None => {
            push_str(&mut r, "no series");
        },
    }
    r
}

/// The three tiles of a book's page, (figure, caption) each: a finished book shows its
/// reading time, the day it was finished and 100%; a book not ready yet dashes and 0%;
/// else the time left, the finish day and the percentage read.
pub open spec fn spec_info_tiles(finished: bool, ready: bool, reading_time: Seq<char>, finished_on: Seq<char>, left: Seq<char>, finish_by: Seq<char>, percent: u32) -> Seq<(Seq<char>, Seq<char>)> {
    if finished {
        seq![(reading_time, "Reading time"@), (finished_on, "Finished"@), ("100%"@, "Read"@)]
    } else if !ready {
        seq![("—"@, "Time left"@), ("—"@, "Finish by"@), ("0%"@, "Read"@)]
    } else {
        seq![(left, "Time left"@), (finish_by, "Finish by"@), (decimal(percent as nat) + "%"@, "Read"@)]
    }
}

/// The tiles of a book's page (see [`spec_info_tiles`]); the durations and dates come
/// formatted.
pub fn info_tiles(finished: bool, ready: bool, reading_time: &str, finished_on: &str, left: &str, finish_by: &str, percent: u32) -> (r: Vec<(String, String)>)
    ensures
        r@.map_values(|t: (String, String)| (t.0@, t.1@)) == spec_info_tiles(
            finished,
            ready,
            reading_time@,
            finished_on@,
            left@,
            finish_by@,
            percent,
        ),
{
    let mut r: Vec<(String, String)> = Vec::new();
    if finished {
        r.push((owned(reading_time), owned("Reading time")));
        r.push((owned(finished_on), owned("Finished")));
        r.push((owned("100%"), owned("Read")));
    } else if !ready {
        r.push((owned("—"), owned("Time left")));
        r.push((owned("—"), owned("Finish by")));
        r.push((owned("0%"), owned("Read")));
    } else {
        let mut pc = String::new();
        push_decimal(&mut pc, percent as u64);
        push_str(&mut pc, "%");
        r.push((owned(left), owned("Time left")));
        r.push((owned(finish_by), owned("Finish by")));
        r.push((pc, owned("Read")));
    }
    assert(r@.map_values(|t: (String, String)| (t.0@, t.1@)) =~= spec_info_tiles(
        finished,
        ready,
        reading_time@,
        finished_on@,
        left@,
        finish_by@,
        percent,
    ));
    r
}

} // verus!
