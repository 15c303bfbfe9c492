//! The layout of the file-backed hit store.
//!
//! Each hit has a directory of its own below the base directory of the store,
//! named after the hit's timestamp read as UTC calendar time:
//! `YYYY-MM-DD_HH-MM-SS..mmm`. Every field has a fixed width, so a name is
//! always 24 characters long and names sort as the calendar times they
//! spell. The directory holds the clip as `clip.mp4` and the record as
//! `data.json`.
//!
//! This module decides names and reads them back, and it picks the unscored
//! hits out of a directory listing. Reading and writing the files is left to
//! the caller.

use chrono::{DateTime, Datelike, NaiveDate, Timelike};
use std::collections::HashMap;
use vstd::prelude::*;
use vstd::std_specs::hash::*;
use vstd::string::*;

use crate::capturer::Timestamp;
use crate::hits::storage::HitData;
use crate::util::text::{digit_value, digits_at, is_digit, number_at};

verus! {

/// File name of the clip inside the directory of a hit.
pub const CLIP_FILE: &'static str = "clip.mp4";

/// File name of the record inside the directory of a hit.
pub const DATA_FILE: &'static str = "data.json";

/// Number of characters of a directory name.
pub const NAME_LEN: usize = 24;

/// A calendar date with a time of day, to the millisecond.
#[derive(Clone, Copy, Debug, PartialEq, Eq, Structural)]
pub struct CivilTime {
    pub year: i32,
    pub month: u32,
    pub day: u32,
    pub hour: u32,
    pub minute: u32,
    pub second: u32,
    pub millisecond: u32,
}

impl CivilTime {
    /// Every field fits the width that a directory name gives it.
    pub open spec fn nameable(self) -> bool {
        &&& 0 <= self.year <= 9999
        &&& 1 <= self.month <= 12
        &&& 1 <= self.day <= 31
        &&& self.hour <= 23
        &&& self.minute <= 59
        &&& self.second <= 59
        &&& self.millisecond <= 999
    }

    /// Whether every field fits the width that a directory name gives it.
    pub fn is_nameable(&self) -> (b: bool)
        ensures
            b == self.nameable(),
    {
        0 <= self.year && self.year <= 9999 && 1 <= self.month && self.month <= 12 && 1 <= self.day
            && self.day <= 31 && self.hour <= 23 && self.minute <= 59 && self.second <= 59
            && self.millisecond <= 999
    }
}

/// The decimal digit `d` as a character.
pub open spec fn digit_char(d: int) -> char {
    ((48 + d) as u8) as char
}

/// The last `width` decimal digits of `value`, most significant first.
pub open spec fn padded(value: nat, width: nat) -> Seq<char>
    decreases width,
{
    if width == 0 {
        Seq::empty()
    } else {
        padded(value / 10, (width - 1) as nat).push(digit_char((value % 10) as int))
    }
}

/// The directory name of a calendar time.
pub open spec fn dir_name_of(t: CivilTime) -> Seq<char> {
    padded(t.year as nat, 4) + seq!['-'] + padded(t.month as nat, 2) + seq!['-'] + padded(
        t.day as nat,
        2,
    ) + seq!['_'] + padded(t.hour as nat, 2) + seq!['-'] + padded(t.minute as nat, 2) + seq!['-']
        + padded(t.second as nat, 2) + seq!['.', '.'] + padded(t.millisecond as nat, 3)
}

/// A padded number is as wide as asked.
pub proof fn lemma_padded_len(value: nat, width: nat)
    ensures
        padded(value, width).len() == width,
    decreases width,
{
    if width > 0 {
        lemma_padded_len(value / 10, (width - 1) as nat);
    }
}

/// Every directory name has the same length.
pub proof fn lemma_dir_name_len(t: CivilTime)
    ensures
        dir_name_of(t).len() == NAME_LEN,
{
    lemma_padded_len(t.year as nat, 4);
    lemma_padded_len(t.month as nat, 2);
    lemma_padded_len(t.day as nat, 2);
    lemma_padded_len(t.hour as nat, 2);
    lemma_padded_len(t.minute as nat, 2);
    lemma_padded_len(t.second as nat, 2);
    lemma_padded_len(t.millisecond as nat, 3);
}

/// The digit `d` as a string.
fn digit_str(d: u32) -> (s: &'static str)
    requires
        d < 10,
    ensures
        s@ == seq![digit_char(d as int)],
{
    proof {
        reveal_strlit("0");
        reveal_strlit("1");
        reveal_strlit("2");
        reveal_strlit("3");
        reveal_strlit("4");
        reveal_strlit("5");
        reveal_strlit("6");
        reveal_strlit("7");
        reveal_strlit("8");
        reveal_strlit("9");
    }
    let s = if d == 0 {
        "0"
    } else if d == 1 {
        "1"
    } else if d == 2 {
        "2"
    } else if d == 3 {
        "3"
    } else if d == 4 {
        "4"
    } else if d == 5 {
        "5"
    } else if d == 6 {
        "6"
    } else if d == 7 {
        "7"
    } else if d == 8 {
        "8"
    } else {
        "9"
    };
    assert(s@ =~= seq![digit_char(d as int)]);
    s
}

/// Appends the last `width` decimal digits of `value` to `out`.
fn push_padded(out: &mut String, value: u32, width: u32)
    ensures
        final(out)@ == old(out)@ + padded(value as nat, width as nat),
    decreases width,
{
    if width == 0 {
        assert(out@ + padded(value as nat, 0) =~= out@);
    } else {
        push_padded(out, value / 10, width - 1);
        out.append(digit_str(value % 10));
        assert(out@ =~= old(out)@ + padded(value as nat, width as nat));
    }
}

/// The directory name of `t`, if every field of `t` fits its width.
pub fn dir_name(t: &CivilTime) -> (name: Option<String>)
    ensures
        t.nameable() ==> name is Some && name->Some_0@ == dir_name_of(*t),
        !t.nameable() ==> name is None,
{
    if !t.is_nameable() {
        return None;
    }
    proof {
        reveal_strlit("-");
        reveal_strlit("_");
        reveal_strlit("..");
    }
    let mut out = String::new();
    push_padded(&mut out, t.year as u32, 4);
    out.append("-");
    push_padded(&mut out, t.month, 2);
    out.append("-");
    push_padded(&mut out, t.day, 2);
    out.append("_");
    push_padded(&mut out, t.hour, 2);
    out.append("-");
    push_padded(&mut out, t.minute, 2);
    out.append("-");
    push_padded(&mut out, t.second, 2);
    out.append("..");
    push_padded(&mut out, t.millisecond, 3);
    assert("-"@ =~= seq!['-']);
    assert("_"@ =~= seq!['_']);
    assert(".."@ =~= seq!['.', '.']);
    assert(out@ =~= dir_name_of(*t));
    Some(out)
}

/// `s` is laid out as a directory name is: digits and separators in their
/// places, and nothing else.
pub open spec fn well_shaped(s: Seq<char>) -> bool {
    &&& s.len() == NAME_LEN
    &&& digits_at(s, 0, 4)
    &&& s[4] == '-'
    &&& digits_at(s, 5, 2)
    &&& s[7] == '-'
    &&& digits_at(s, 8, 2)
    &&& s[10] == '_'
    &&& digits_at(s, 11, 2)
    &&& s[13] == '-'
    &&& digits_at(s, 14, 2)
    &&& s[16] == '-'
    &&& digits_at(s, 17, 2)
    &&& s[19] == '.'
    &&& s[20] == '.'
    &&& digits_at(s, 21, 3)
}

/// The calendar time that the fields of a well-shaped name spell.
pub open spec fn fields_of(s: Seq<char>) -> CivilTime {
    CivilTime {
        year: number_at(s, 0, 4) as i32,
        month: number_at(s, 5, 2) as u32,
        day: number_at(s, 8, 2) as u32,
        hour: number_at(s, 11, 2) as u32,
        minute: number_at(s, 14, 2) as u32,
        second: number_at(s, 17, 2) as u32,
        millisecond: number_at(s, 21, 3) as u32,
    }
}

/// The calendar time that `s` names, if `s` is a directory name.
pub open spec fn parsed_name(s: Seq<char>) -> Option<CivilTime> {
    if well_shaped(s) && fields_of(s).nameable() {
        Some(fields_of(s))
    } else {
        None
    }
}

/// A number of `width` digits is below `10^width`; here for the widths in use.
proof fn lemma_number_at_bound(s: Seq<char>, from: int, width: nat)
    requires
        digits_at(s, from, width),
        width <= 4,
    ensures
        width == 0 ==> number_at(s, from, width) == 0,
        width == 1 ==> number_at(s, from, width) <= 9,
        width == 2 ==> number_at(s, from, width) <= 99,
        width == 3 ==> number_at(s, from, width) <= 999,
        width == 4 ==> number_at(s, from, width) <= 9999,
    decreases width,
{
    if width > 0 {
        assert(digits_at(s, from, (width - 1) as nat));
        lemma_number_at_bound(s, from, (width - 1) as nat);
        assert(is_digit(s[from + width - 1]));
    }
}

/// Reads the `width` digits of `name` from `from` on. `bytes` are the bytes of
/// `name`, which is plain ASCII.
fn read_number(bytes: &[u8], from: usize, width: usize, Ghost(name): Ghost<Seq<char>>) -> (value:
    Option<u32>)
    requires
        bytes@.len() == name.len(),
        forall|i: int| 0 <= i < name.len() ==> '\0' <= #[trigger] name[i] <= '\u{7f}',
        forall|i: int| 0 <= i < name.len() ==> bytes@[i] == name[i] as u8,
        from + width <= name.len(),
        width <= 4,
    ensures
        value is Some <==> digits_at(name, from as int, width as nat),
        value matches Some(v) ==> v == number_at(name, from as int, width as nat),
{
    let n = bytes.len();
    let mut value: u32 = 0;
    let mut i: usize = 0;
    while i < width
        invariant
            n == bytes@.len(),
            bytes@.len() == name.len(),
            forall|i: int| 0 <= i < name.len() ==> '\0' <= #[trigger] name[i] <= '\u{7f}',
            forall|i: int| 0 <= i < name.len() ==> bytes@[i] == name[i] as u8,
            from + width <= name.len(),
            width <= 4,
            0 <= i <= width,
            digits_at(name, from as int, i as nat),
            value == number_at(name, from as int, i as nat),
        decreases width - i,
    {
        let b = bytes[from + i];
        let ghost c = name[from + i];
        assert(b == c as u8);
        if b < 48 || b > 57 {
            assert(!is_digit(c));
            return None;
        }
        proof {
            lemma_number_at_bound(name, from as int, i as nat);
            assert(is_digit(c));
            assert(digit_value(c) == b - 48);
            assert forall|j: int| from <= j < from + i + 1 implies is_digit(#[trigger] name[j]) by {
                if j < from + i {
                    assert(is_digit(name[j]));
                }
            }
        }
        value = value * 10 + ((b - 48) as u32);
        i = i + 1;
    }
    Some(value)
}

/// Reads a directory name back into the calendar time it was made from.
/// Anything that is not laid out exactly as a directory name is refused.
pub fn parse_dir_name(name: &str) -> (t: Option<CivilTime>)
    ensures
        t == parsed_name(name@),
{
    if !name.is_ascii() {
        proof {
            if well_shaped(name@) {
                assert forall|i: int| 0 <= i < name@.len() implies '\0' <= #[trigger] name@[i]
                    <= '\u{7f}' by {
                    lemma_shaped_char(name@, i);
                }
            }
        }
        return None;
    }
    let bytes = name.as_bytes();
    proof {
        is_ascii_spec_bytes(name);
    }
    if bytes.len() != NAME_LEN {
        return None;
    }
    let ghost s = name@;
    if bytes[4] != 45 || bytes[7] != 45 || bytes[10] != 95 || bytes[13] != 45 || bytes[16] != 45
        || bytes[19] != 46 || bytes[20] != 46 {
        assert(s[4] as u8 == bytes@[4] && s[7] as u8 == bytes@[7] && s[10] as u8 == bytes@[10]
            && s[13] as u8 == bytes@[13] && s[16] as u8 == bytes@[16] && s[19] as u8 == bytes@[19]
            && s[20] as u8 == bytes@[20]);
        return None;
    }
    assert(s[4] == '-' && s[7] == '-' && s[10] == '_' && s[13] == '-' && s[16] == '-' && s[19]
        == '.' && s[20] == '.') by {
        assert(s[4] as u8 == bytes@[4] && s[7] as u8 == bytes@[7] && s[10] as u8 == bytes@[10]
            && s[13] as u8 == bytes@[13] && s[16] as u8 == bytes@[16] && s[19] as u8 == bytes@[19]
            && s[20] as u8 == bytes@[20]);
    }
    let year = match read_number(bytes, 0, 4, Ghost(s)) {
        Some(v) => v,
        None => { return None; },
    };
    let month = match read_number(bytes, 5, 2, Ghost(s)) {
        Some(v) => v,
        None => { return None; },
    };
    let day = match read_number(bytes, 8, 2, Ghost(s)) {
        Some(v) => v,
        None => { return None; },
    };
    let hour = match read_number(bytes, 11, 2, Ghost(s)) {
        Some(v) => v,
        None => { return None; },
    };
    let minute = match read_number(bytes, 14, 2, Ghost(s)) {
        Some(v) => v,
        None => { return None; },
    };
    let second = match read_number(bytes, 17, 2, Ghost(s)) {
        Some(v) => v,
        None => { return None; },
    };
    let millisecond = match read_number(bytes, 21, 3, Ghost(s)) {
        Some(v) => v,
        None => { return None; },
    };
    proof {
        lemma_number_at_bound(s, 0, 4);
    }
    let t = CivilTime { year: year as i32, month, day, hour, minute, second, millisecond };
    if t.is_nameable() {
        Some(t)
    } else {
        None
    }
}

/// Every character of a well-shaped name is plain ASCII.
proof fn lemma_shaped_char(s: Seq<char>, i: int)
    requires
        well_shaped(s),
        0 <= i < s.len(),
    ensures
        '\0' <= s[i] <= '\u{7f}',
{
    if i < 4 {
        assert(is_digit(s[i]));
    } else if i == 4 {
    } else if i < 7 {
        assert(is_digit(s[i]));
    } else if i == 7 {
    } else if i < 10 {
        assert(is_digit(s[i]));
    } else if i == 10 {
    } else if i < 13 {
        assert(is_digit(s[i]));
    } else if i == 13 {
    } else if i < 16 {
        assert(is_digit(s[i]));
    } else if i == 16 {
    } else if i < 19 {
        assert(is_digit(s[i]));
    } else if i == 19 {
    } else if i == 20 {
    } else {
        assert(is_digit(s[i]));
    }
}

/// Ten to the power of `width`.
pub open spec fn pow10(width: nat) -> nat
    decreases width,
{
    if width == 0 {
        1
    } else {
        10 * pow10((width - 1) as nat)
    }
}

/// Where a padded number stands in a name, it reads back as the number.
proof fn lemma_padded_reads_back(s: Seq<char>, from: int, value: nat, width: nat)
    requires
        0 <= from,
        from + width <= s.len(),
        value < pow10(width),
        padded(value, width).len() == width,
        forall|i: int| 0 <= i < width ==> s[from + i] == padded(value, width)[i],
    ensures
        digits_at(s, from, width),
        number_at(s, from, width) == value,
    decreases width,
{
    if width > 0 {
        let shorter = padded(value / 10, (width - 1) as nat);
        lemma_padded_len(value / 10, (width - 1) as nat);
        assert forall|i: int| 0 <= i < width - 1 implies s[from + i] == shorter[i] by {
            assert(padded(value, width)[i] == shorter[i]);
        }
        lemma_padded_reads_back(s, from, value / 10, (width - 1) as nat);
        let last = s[from + width - 1];
        assert(padded(value, width) == shorter.push(digit_char((value % 10) as int)));
        assert(padded(value, width)[width - 1] == digit_char((value % 10) as int));
        assert(s[from + (width - 1)] == padded(value, width)[width - 1]);
        assert(last == digit_char((value % 10) as int));
        assert(is_digit(last));
        assert(digit_value(last) == value % 10);
        assert forall|i: int| from <= i < from + width implies is_digit(#[trigger] s[i]) by {
            if i < from + width - 1 {
                assert(digits_at(s, from, (width - 1) as nat));
            }
        }
    }
}

/// A directory name reads back as the calendar time it was made from.
pub proof fn lemma_dir_name_round_trip(t: CivilTime)
    requires
        t.nameable(),
    ensures
        parsed_name(dir_name_of(t)) == Some(t),
{
    let s = dir_name_of(t);
    lemma_dir_name_len(t);
    lemma_padded_len(t.year as nat, 4);
    lemma_padded_len(t.month as nat, 2);
    lemma_padded_len(t.day as nat, 2);
    lemma_padded_len(t.hour as nat, 2);
    lemma_padded_len(t.minute as nat, 2);
    lemma_padded_len(t.second as nat, 2);
    lemma_padded_len(t.millisecond as nat, 3);
    assert(pow10(2) == 100 && pow10(3) == 1000 && pow10(4) == 10000) by {
        reveal_with_fuel(pow10, 5);
    }
    lemma_padded_reads_back(s, 0, t.year as nat, 4);
    lemma_padded_reads_back(s, 5, t.month as nat, 2);
    lemma_padded_reads_back(s, 8, t.day as nat, 2);
    lemma_padded_reads_back(s, 11, t.hour as nat, 2);
    lemma_padded_reads_back(s, 14, t.minute as nat, 2);
    lemma_padded_reads_back(s, 17, t.second as nat, 2);
    lemma_padded_reads_back(s, 21, t.millisecond as nat, 3);
    assert(fields_of(s) == t);
}

/// The calendar reading, in UTC, of an instant given in milliseconds since
/// the Unix epoch, as `chrono` computes it; nothing for an instant outside
/// the years that `chrono` can represent.
pub uninterp spec fn utc_civil(millis: Timestamp) -> Option<CivilTime>;

/// The instant, in milliseconds since the Unix epoch, that `chrono` gives for
/// a calendar reading in UTC; nothing where the fields name no date or no
/// time of day.
pub uninterp spec fn utc_timestamp(t: CivilTime) -> Option<Timestamp>;

/// Reads an instant as UTC calendar time.
///
/// Calls `chrono::DateTime::from_timestamp_millis` and copies the fields of
/// the date and time it returns. Not verified: that the result is the value
/// `utc_civil` stands for is the meaning of that name. Not verified either:
/// that the calendar time leads back to the instant. `chrono` documents that
/// `from_timestamp_millis` round-trips with `timestamp_millis`, and the date
/// and time it returns never hold a leap second, so the fields it shows
/// build the same date and time again.
#[verifier::external_body]
fn civil_from_timestamp(millis: Timestamp) -> (t: Option<CivilTime>)
    ensures
        t == utc_civil(millis),
        t matches Some(civil) ==> utc_timestamp(civil) == Some(millis),
{
    let at = DateTime::from_timestamp_millis(millis)?;
    Some(
        CivilTime {
            year: at.year(),
            month: at.month(),
            day: at.day(),
            hour: at.hour(),
            minute: at.minute(),
            second: at.second(),
            millisecond: at.timestamp_subsec_millis(),
        },
    )
}

/// Turns a UTC calendar time into an instant.
///
/// Calls `chrono::NaiveDate::from_ymd_opt` and `and_hms_milli_opt`, which
/// refuse fields that name no date or time, and reads the result as UTC with
/// `timestamp_millis`. Not verified: that the result is the value
/// `utc_timestamp` stands for is the meaning of that name.
#[verifier::external_body]
fn timestamp_from_civil(t: &CivilTime) -> (millis: Option<Timestamp>)
    ensures
        millis == utc_timestamp(*t),
{
    let date = NaiveDate::from_ymd_opt(t.year, t.month, t.day)?;
    let at = date.and_hms_milli_opt(t.hour, t.minute, t.second, t.millisecond)?;
    Some(at.and_utc().timestamp_millis())
}

/// The directory name of the hit with the given timestamp.
pub open spec fn dir_name_at(timestamp: Timestamp) -> Option<Seq<char>> {
    match utc_civil(timestamp) {
        Some(t) => if t.nameable() {
            Some(dir_name_of(t))
        } else {
            None
        },
        None => None,
    }
}

/// The timestamp of the hit whose directory has the given name.
pub open spec fn timestamp_named(name: Seq<char>) -> Option<Timestamp> {
    match parsed_name(name) {
        Some(t) => utc_timestamp(t),
        None => None,
    }
}

/// `dir` with the file or directory `leaf` below it.
pub open spec fn joined(dir: Seq<char>, leaf: Seq<char>) -> Seq<char> {
    if dir.len() == 0 || dir.last() == '/' {
        dir + leaf
    } else {
        dir + seq!['/'] + leaf
    }
}

/// The path of `leaf` below `dir`.
pub fn join(dir: &str, leaf: &str) -> (path: String)
    ensures
        path@ == joined(dir@, leaf@),
{
    proof {
        reveal_strlit("/");
    }
    let n = dir.unicode_len();
    let mut path = String::from_str(dir);
    if n > 0 && dir.get_char(n - 1) != '/' {
        path.append("/");
        assert("/"@ =~= seq!['/']);
    }
    path.append(leaf);
    path
}

/// An entry of the base directory as a listing shows it.
pub struct StoredEntry {
    /// The name of the entry.
    pub name: String,
    /// The entry is a directory.
    pub is_dir: bool,
    /// The record found in it, if there is one that can be read.
    pub data: Option<HitData>,
}

impl StoredEntry {
    /// The timestamp of the hit that this entry holds, if it holds one that
    /// has not been scored.
    pub open spec fn unprocessed(self) -> Option<Timestamp> {
        if self.is_dir && self.data is Some && self.data->Some_0.processed is None {
            timestamp_named(self.name@)
        } else {
            None
        }
    }
}

impl StoredEntry {
    /// The hit that this entry holds, if it holds one: the entry is a
    /// directory, is named as a hit is, and has a record that can be read.
    pub open spec fn hit(self) -> Option<(Timestamp, HitData)> {
        if self.is_dir && self.data is Some {
            match timestamp_named(self.name@) {
                Some(t) => Some((t, self.data->Some_0)),
                None => None,
            }
        } else {
            None
        }
    }
}

/// The hits among `entries`, each under its timestamp. Should two entries
/// hold a hit of the same timestamp, the one listed later counts.
pub open spec fn hits_among(entries: Seq<StoredEntry>) -> Map<Timestamp, HitData>
    decreases entries.len(),
{
    if entries.len() == 0 {
        Map::empty()
    } else {
        let earlier = hits_among(entries.drop_last());
        match entries.last().hit() {
            Some((t, data)) => earlier.insert(t, data),
            None => earlier,
        }
    }
}

/// The timestamps of the unscored hits among `entries`, in listing order.
pub open spec fn unprocessed_among(entries: Seq<StoredEntry>) -> Seq<Timestamp> {
    entries.filter_map(|e: StoredEntry| e.unprocessed())
}

/// No timestamp of `times` is later than one that follows it.
pub open spec fn ascending(times: Seq<Timestamp>) -> bool {
    forall|i: int, j: int| 0 <= i <= j < times.len() ==> times[i] <= times[j]
}

/// Puts `t` into the ascending `times` at a place that keeps them ascending.
fn insert_ascending(times: &mut Vec<Timestamp>, t: Timestamp)
    requires
        ascending(old(times)@),
    ensures
        ascending(final(times)@),
        final(times)@.to_multiset() == old(times)@.to_multiset().insert(t),
{
    let n = times.len();
    let mut pos: usize = 0;
    while pos < n && times[pos] <= t
        invariant
            n == times@.len(),
            0 <= pos <= n,
            forall|i: int| 0 <= i < pos ==> times@[i] <= t,
        decreases n - pos,
    {
        pos = pos + 1;
    }
    let ghost before = times@;
    proof {
        assert forall|i: int| pos <= i < n implies t < #[trigger] before[i] by {
            assert(before[pos as int] <= before[i]);
        }
        vstd::seq_lib::to_multiset_insert(before, pos as int, t);
    }
    times.insert(pos, t);
    proof {
        let after = times@;
        assert forall|i: int, j: int| 0 <= i <= j < after.len() implies after[i] <= after[j] by {
            if j < pos {
                assert(after[i] == before[i] && after[j] == before[j]);
            } else if j == pos {
                if i < pos {
                    assert(after[i] == before[i]);
                }
            } else if i < pos {
                assert(after[i] == before[i] && after[j] == before[j - 1]);
            } else if i == pos {
                assert(after[j] == before[j - 1]);
            } else {
                assert(after[i] == before[i - 1] && after[j] == before[j - 1]);
            }
        }
    }
}

/// The file-backed hit store: where it lives and how it names things.
pub struct FileHitStorage {
    base: String,
}

impl View for FileHitStorage {
    type V = Seq<char>;

    /// The base directory.
    closed spec fn view(&self) -> Seq<char> {
        self.base@
    }
}

impl FileHitStorage {
    /// A store below the directory `base`.
    pub fn new(base: &str) -> (storage: Self)
        ensures
            storage@ == base@,
    {
        FileHitStorage { base: String::from_str(base) }
    }

    /// The base directory.
    pub fn base(&self) -> (base: &str)
        ensures
            base@ == self@,
    {
        self.base.as_str()
    }

    /// The name of the directory of the hit with the given timestamp. There
    /// is none for a timestamp outside the years 0 to 9999. The name leads
    /// back to the timestamp: it is the name of no other.
    pub fn dir_name_for(timestamp: Timestamp) -> (name: Option<String>)
        ensures
            name is Some <==> dir_name_at(timestamp) is Some,
            name matches Some(n) ==> Some(n@) == dir_name_at(timestamp),
            name matches Some(n) ==> timestamp_named(n@) == Some(timestamp),
    {
        match civil_from_timestamp(timestamp) {
            Some(t) => {
                proof {
                    if t.nameable() {
                        lemma_dir_name_round_trip(t);
                    }
                }
                dir_name(&t)
            },
            None => None,
        }
    }

    /// The timestamp of the hit whose directory has the given name; nothing
    /// for a name that is not a directory name of this store.
    pub fn timestamp_of(name: &str) -> (timestamp: Option<Timestamp>)
        ensures
            timestamp == timestamp_named(name@),
    {
        match parse_dir_name(name) {
            Some(t) => timestamp_from_civil(&t),
            None => None,
        }
    }

    /// The path of the directory of the hit with the given timestamp.
    pub fn dir_for(&self, timestamp: Timestamp) -> (path: Option<String>)
        ensures
            path is Some <==> dir_name_at(timestamp) is Some,
            path matches Some(p) ==> p@ == joined(self@, dir_name_at(timestamp)->Some_0),
    {
        match Self::dir_name_for(timestamp) {
            Some(name) => Some(join(self.base.as_str(), name.as_str())),
            None => None,
        }
    }

    /// The path of the clip of the hit with the given timestamp.
    pub fn clip_path(&self, timestamp: Timestamp) -> (path: Option<String>)
        ensures
            path is Some <==> dir_name_at(timestamp) is Some,
            path matches Some(p) ==> p@ == joined(
                joined(self@, dir_name_at(timestamp)->Some_0),
                CLIP_FILE@,
            ),
    {
        match self.dir_for(timestamp) {
            Some(dir) => Some(join(dir.as_str(), CLIP_FILE)),
            None => None,
        }
    }

    /// The path of the record of the hit with the given timestamp.
    pub fn data_path(&self, timestamp: Timestamp) -> (path: Option<String>)
        ensures
            path is Some <==> dir_name_at(timestamp) is Some,
            path matches Some(p) ==> p@ == joined(
                joined(self@, dir_name_at(timestamp)->Some_0),
                DATA_FILE@,
            ),
    {
        match self.dir_for(timestamp) {
            Some(dir) => Some(join(dir.as_str(), DATA_FILE)),
            None => None,
        }
    }

    /// Picks the hits out of a listing of the base directory: the records of
    /// the directories that are named as this store names them and hold a
    /// record that can be read, each under its timestamp. Everything else in
    /// the listing is passed over.
    pub fn all_hits(entries: &Vec<StoredEntry>) -> (hits: HashMap<Timestamp, HitData>)
        ensures
            hits@ == hits_among(entries@),
    {
        broadcast use group_hash_axioms;

        let mut hits: HashMap<Timestamp, HitData> = HashMap::new();
        let n = entries.len();
        let mut i: usize = 0;
        assert(entries@.take(0) =~= Seq::empty());
        while i < n
            invariant
                n == entries@.len(),
                0 <= i <= n,
                hits@ == hits_among(entries@.take(i as int)),
            decreases n - i,
        {
            let entry = &entries[i];
            proof {
                let more = entries@.take(i as int + 1);
                assert(more.drop_last() =~= entries@.take(i as int));
                assert(more.last() == entries@[i as int]);
            }
            if entry.is_dir {
                match entry.data {
                    Some(data) => {
                        match Self::timestamp_of(entry.name.as_str()) {
                            Some(t) => {
                                hits.insert(t, data);
                            },
                            None => {},
                        }
                    },
                    None => {},
                }
            }
            i = i + 1;
        }
        assert(entries@.take(n as int) =~= entries@);
        hits
    }

    /// Picks the unscored hits out of a listing of the base directory: the
    /// timestamps of the directories that are named as this store names
    /// them and hold a record without a score, oldest first.
    pub fn unprocessed_old_sorted(entries: &Vec<StoredEntry>) -> (times: Vec<Timestamp>)
        ensures
            ascending(times@),
            times@.to_multiset() == unprocessed_among(entries@).to_multiset(),
    {
        let ghost pick = |e: StoredEntry| e.unprocessed();
        let mut times: Vec<Timestamp> = Vec::new();
        let n = entries.len();
        let mut i: usize = 0;
        assert(entries@.take(0).filter_map(pick) =~= Seq::empty());
        while i < n
            invariant
                n == entries@.len(),
                0 <= i <= n,
                pick == (|e: StoredEntry| e.unprocessed()),
                ascending(times@),
                times@.to_multiset() == entries@.take(i as int).filter_map(pick).to_multiset(),
            decreases n - i,
        {
            let entry = &entries[i];
            let ghost seen = entries@.take(i as int);
            let ghost more = entries@.take(i as int + 1);
            proof {
                assert(more.drop_last() =~= seen);
                assert(more.last() == entries@[i as int]);
            }
            let found = if entry.is_dir && entry.data.is_some() && entry.data.unwrap().processed.is_none() {
                Self::timestamp_of(entry.name.as_str())
            } else {
                None
            };
            assert(found == pick(entries@[i as int]));
            match found {
                Some(t) => {
                    proof {
                        assert(more.filter_map(pick) =~= seen.filter_map(pick) + seq![t]);
                        assert(seen.filter_map(pick) + seq![t] =~= seen.filter_map(pick).push(t));
                        vstd::seq_lib::to_multiset_build(seen.filter_map(pick), t);
                    }
                    insert_ascending(&mut times, t);
                },
                None => {
                    assert(more.filter_map(pick) =~= seen.filter_map(pick));
                },
            }
            i = i + 1;
        }
        assert(entries@.take(n as int) =~= entries@);
        times
    }
}

/// `a` comes before `b` in dictionary order: at the first place where the two
/// differ, `a` has the smaller character.
pub open spec fn name_before(a: Seq<char>, b: Seq<char>) -> bool {
    exists|k: int| #[trigger] differ_at(a, b, k) && a[k] < b[k]
}

/// `k` is the first place where `a` and `b` differ.
pub open spec fn differ_at(a: Seq<char>, b: Seq<char>, k: int) -> bool {
    &&& 0 <= k < a.len()
    &&& k < b.len()
    &&& a[k] != b[k]
    &&& forall|i: int| 0 <= i < k ==> a[i] == b[i]
}

/// `a` is an earlier calendar time than `b`.
pub open spec fn civil_before(a: CivilTime, b: CivilTime) -> bool {
    if a.year != b.year {
        a.year < b.year
    } else if a.month != b.month {
        a.month < b.month
    } else if a.day != b.day {
        a.day < b.day
    } else if a.hour != b.hour {
        a.hour < b.hour
    } else if a.minute != b.minute {
        a.minute < b.minute
    } else if a.second != b.second {
        a.second < b.second
    } else {
        a.millisecond < b.millisecond
    }
}

/// Of two numbers padded to the same width, the smaller has the smaller
/// digit at the first place where the two differ.
proof fn lemma_padded_order(v1: nat, v2: nat, width: nat) -> (k: int)
    requires
        v1 < v2 < pow10(width),
    ensures
        0 <= k < width,
        forall|i: int| 0 <= i < k ==> padded(v1, width)[i] == padded(v2, width)[i],
        padded(v1, width)[k] < padded(v2, width)[k],
    decreases width,
{
    lemma_padded_len(v1 / 10, (width - 1) as nat);
    lemma_padded_len(v2 / 10, (width - 1) as nat);
    let head1 = padded(v1 / 10, (width - 1) as nat);
    let head2 = padded(v2 / 10, (width - 1) as nat);
    assert(padded(v1, width) == head1.push(digit_char((v1 % 10) as int)));
    assert(padded(v2, width) == head2.push(digit_char((v2 % 10) as int)));
    if v1 / 10 < v2 / 10 {
        let k = lemma_padded_order(v1 / 10, v2 / 10, (width - 1) as nat);
        assert forall|i: int| 0 <= i < k implies padded(v1, width)[i] == padded(v2, width)[i] by {
            assert(padded(v1, width)[i] == head1[i] && padded(v2, width)[i] == head2[i]);
        }
        assert(padded(v1, width)[k] == head1[k] && padded(v2, width)[k] == head2[k]);
        k
    } else {
        assert(v1 / 10 == v2 / 10);
        assert(v1 % 10 < v2 % 10);
        let k = width - 1;
        assert forall|i: int| 0 <= i < k implies padded(v1, width)[i] == padded(v2, width)[i] by {
            assert(padded(v1, width)[i] == head1[i] && padded(v2, width)[i] == head2[i]);
        }
        assert(padded(v1, width)[k] == digit_char((v1 % 10) as int));
        assert(padded(v2, width)[k] == digit_char((v2 % 10) as int));
        k
    }
}

/// Where each field stands in a directory name.
proof fn lemma_name_fields(t: CivilTime)
    ensures
        dir_name_of(t).len() == NAME_LEN,
        forall|i: int| 0 <= i < 4 ==> dir_name_of(t)[i] == padded(t.year as nat, 4)[i],
        dir_name_of(t)[4] == '-',
        forall|i: int| 0 <= i < 2 ==> dir_name_of(t)[5 + i] == padded(t.month as nat, 2)[i],
        dir_name_of(t)[7] == '-',
        forall|i: int| 0 <= i < 2 ==> dir_name_of(t)[8 + i] == padded(t.day as nat, 2)[i],
        dir_name_of(t)[10] == '_',
        forall|i: int| 0 <= i < 2 ==> dir_name_of(t)[11 + i] == padded(t.hour as nat, 2)[i],
        dir_name_of(t)[13] == '-',
        forall|i: int| 0 <= i < 2 ==> dir_name_of(t)[14 + i] == padded(t.minute as nat, 2)[i],
        dir_name_of(t)[16] == '-',
        forall|i: int| 0 <= i < 2 ==> dir_name_of(t)[17 + i] == padded(t.second as nat, 2)[i],
        dir_name_of(t)[19] == '.',
        dir_name_of(t)[20] == '.',
        forall|i: int| 0 <= i < 3 ==> dir_name_of(t)[21 + i] == padded(t.millisecond as nat, 3)[i],
{
    lemma_padded_len(t.year as nat, 4);
    lemma_padded_len(t.month as nat, 2);
    lemma_padded_len(t.day as nat, 2);
    lemma_padded_len(t.hour as nat, 2);
    lemma_padded_len(t.minute as nat, 2);
    lemma_padded_len(t.second as nat, 2);
    lemma_padded_len(t.millisecond as nat, 3);
}

/// The first place where the names of two calendar times differ, of which
/// the first is the earlier: the name of the earlier has the smaller
/// character there.
proof fn lemma_earlier_name_first(a: CivilTime, b: CivilTime) -> (k: int)
    requires
        a.nameable(),
        b.nameable(),
        civil_before(a, b),
    ensures
        differ_at(dir_name_of(a), dir_name_of(b), k),
        dir_name_of(a)[k] < dir_name_of(b)[k],
{
    lemma_name_fields(a);
    lemma_name_fields(b);
    assert(pow10(2) == 100 && pow10(3) == 1000 && pow10(4) == 10000) by {
        reveal_with_fuel(pow10, 5);
    }
    let na = dir_name_of(a);
    let nb = dir_name_of(b);
    if a.year != b.year {
        let k = lemma_padded_order(a.year as nat, b.year as nat, 4);
        assert(na[k] == padded(a.year as nat, 4)[k] && nb[k] == padded(b.year as nat, 4)[k]);
        k
    } else if a.month != b.month {
        let k = lemma_padded_order(a.month as nat, b.month as nat, 2);
        assert(na[5 + k] == padded(a.month as nat, 2)[k] && nb[5 + k] == padded(b.month as nat, 2)[k]);
        assert forall|i: int| 0 <= i < 5 + k implies na[i] == nb[i] by {
            lemma_same_up_to(a, b, i);
        }
        5 + k
    } else if a.day != b.day {
        let k = lemma_padded_order(a.day as nat, b.day as nat, 2);
        assert(na[8 + k] == padded(a.day as nat, 2)[k] && nb[8 + k] == padded(b.day as nat, 2)[k]);
        assert forall|i: int| 0 <= i < 8 + k implies na[i] == nb[i] by {
            lemma_same_up_to(a, b, i);
        }
        8 + k
    } else if a.hour != b.hour {
        let k = lemma_padded_order(a.hour as nat, b.hour as nat, 2);
        assert(na[11 + k] == padded(a.hour as nat, 2)[k] && nb[11 + k] == padded(b.hour as nat, 2)[k]);
        assert forall|i: int| 0 <= i < 11 + k implies na[i] == nb[i] by {
            lemma_same_up_to(a, b, i);
        }
        11 + k
    } else if a.minute != b.minute {
        let k = lemma_padded_order(a.minute as nat, b.minute as nat, 2);
        assert(na[14 + k] == padded(a.minute as nat, 2)[k] && nb[14 + k] == padded(
            b.minute as nat,
            2,
        )[k]);
        assert forall|i: int| 0 <= i < 14 + k implies na[i] == nb[i] by {
            lemma_same_up_to(a, b, i);
        }
        14 + k
    } else if a.second != b.second {
        let k = lemma_padded_order(a.second as nat, b.second as nat, 2);
        assert(na[17 + k] == padded(a.second as nat, 2)[k] && nb[17 + k] == padded(
            b.second as nat,
            2,
        )[k]);
        assert forall|i: int| 0 <= i < 17 + k implies na[i] == nb[i] by {
            lemma_same_up_to(a, b, i);
        }
        17 + k
    } else {
        let k = lemma_padded_order(a.millisecond as nat, b.millisecond as nat, 3);
        assert(na[21 + k] == padded(a.millisecond as nat, 3)[k] && nb[21 + k] == padded(
            b.millisecond as nat,
            3,
        )[k]);
        assert forall|i: int| 0 <= i < 21 + k implies na[i] == nb[i] by {
            lemma_same_up_to(a, b, i);
        }
        21 + k
    }
}

/// The names of two calendar times agree at every place that belongs to a
/// field in which the two agree, at every separator, and inside the first
/// field in which the two differ as far as the digits of that field agree.
proof fn lemma_same_up_to(a: CivilTime, b: CivilTime, i: int)
    requires
        0 <= i < NAME_LEN,
        i < 4 ==> padded(a.year as nat, 4)[i] == padded(b.year as nat, 4)[i],
        5 <= i < 7 ==> padded(a.month as nat, 2)[i - 5] == padded(b.month as nat, 2)[i - 5],
        8 <= i < 10 ==> padded(a.day as nat, 2)[i - 8] == padded(b.day as nat, 2)[i - 8],
        11 <= i < 13 ==> padded(a.hour as nat, 2)[i - 11] == padded(b.hour as nat, 2)[i - 11],
        14 <= i < 16 ==> padded(a.minute as nat, 2)[i - 14] == padded(b.minute as nat, 2)[i - 14],
        17 <= i < 19 ==> padded(a.second as nat, 2)[i - 17] == padded(b.second as nat, 2)[i - 17],
        21 <= i < 24 ==> padded(a.millisecond as nat, 3)[i - 21] == padded(
            b.millisecond as nat,
            3,
        )[i - 21],
    ensures
        dir_name_of(a)[i] == dir_name_of(b)[i],
{
    lemma_name_fields(a);
    lemma_name_fields(b);
    let na = dir_name_of(a);
    let nb = dir_name_of(b);
    if i < 4 {
        assert(na[i] == padded(a.year as nat, 4)[i]);
    } else if 5 <= i < 7 {
        assert(na[5 + (i - 5)] == padded(a.month as nat, 2)[i - 5]);
        assert(nb[5 + (i - 5)] == padded(b.month as nat, 2)[i - 5]);
    } else if 8 <= i < 10 {
        assert(na[8 + (i - 8)] == padded(a.day as nat, 2)[i - 8]);
        assert(nb[8 + (i - 8)] == padded(b.day as nat, 2)[i - 8]);
    } else if 11 <= i < 13 {
        assert(na[11 + (i - 11)] == padded(a.hour as nat, 2)[i - 11]);
        assert(nb[11 + (i - 11)] == padded(b.hour as nat, 2)[i - 11]);
    } else if 14 <= i < 16 {
        assert(na[14 + (i - 14)] == padded(a.minute as nat, 2)[i - 14]);
        assert(nb[14 + (i - 14)] == padded(b.minute as nat, 2)[i - 14]);
    } else if 17 <= i < 19 {
        assert(na[17 + (i - 17)] == padded(a.second as nat, 2)[i - 17]);
        assert(nb[17 + (i - 17)] == padded(b.second as nat, 2)[i - 17]);
    } else if 21 <= i {
        assert(na[21 + (i - 21)] == padded(a.millisecond as nat, 3)[i - 21]);
        assert(nb[21 + (i - 21)] == padded(b.millisecond as nat, 3)[i - 21]);
    }
}

/// Two texts differ first at one place only.
proof fn lemma_first_difference_unique(a: Seq<char>, b: Seq<char>, k1: int, k2: int)
    requires
        differ_at(a, b, k1),
        differ_at(b, a, k2),
    ensures
        k1 == k2,
{
}

/// Directory names sort as the calendar times they are made from: of two
/// names, the one of the earlier time comes first in dictionary order, and
/// only that one.
pub proof fn lemma_names_sort_as_times(a: CivilTime, b: CivilTime)
    requires
        a.nameable(),
        b.nameable(),
    ensures
        name_before(dir_name_of(a), dir_name_of(b)) <==> civil_before(a, b),
{
    let na = dir_name_of(a);
    let nb = dir_name_of(b);
    if civil_before(a, b) {
        let k = lemma_earlier_name_first(a, b);
        assert(differ_at(na, nb, k) && na[k] < nb[k]);
    } else if a == b {
        assert(!name_before(na, nb));
    } else {
        assert(civil_before(b, a));
        let k = lemma_earlier_name_first(b, a);
        if name_before(na, nb) {
            let j = choose|j: int| #[trigger] differ_at(na, nb, j) && na[j] < nb[j];
            lemma_first_difference_unique(na, nb, j, k);
        }
    }
}

} // verus!
