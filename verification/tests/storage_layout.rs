use laser_trainer::hits::storage::file::{
    dir_name, join, parse_dir_name, CivilTime, FileHitStorage,
};

#[test]
fn dir_name_of_known_instant() {
    let name = FileHitStorage::dir_name_for(947_638_923_004).unwrap();
    assert_eq!(name, "2000-01-12_01-02-03..004");
}

#[test]
fn timestamp_of_known_name() {
    assert_eq!(
        FileHitStorage::timestamp_of("2000-01-12_01-02-03..004"),
        Some(947_638_923_004)
    );
}

#[test]
fn epoch_is_named_in_utc() {
    assert_eq!(
        FileHitStorage::dir_name_for(0).unwrap(),
        "1970-01-01_00-00-00..000"
    );
    assert_eq!(
        FileHitStorage::dir_name_for(-1).unwrap(),
        "1969-12-31_23-59-59..999"
    );
}

#[test]
fn name_round_trips_through_timestamp() {
    for ts in [0i64, 1, 999, 1_000, 1_700_000_000_123, 253_402_300_799_999] {
        let name = FileHitStorage::dir_name_for(ts).unwrap();
        assert_eq!(name.len(), 24);
        assert_eq!(FileHitStorage::timestamp_of(&name), Some(ts));
    }
}

#[test]
fn years_past_four_digits_have_no_name() {
    assert_eq!(FileHitStorage::dir_name_for(253_402_300_800_000), None);
    assert_eq!(FileHitStorage::dir_name_for(-62_167_219_200_001), None);
    assert_eq!(FileHitStorage::dir_name_for(i64::MAX), None);
    assert_eq!(FileHitStorage::dir_name_for(i64::MIN), None);
}

#[test]
fn malformed_names_are_refused() {
    assert_eq!(parse_dir_name(""), None);
    assert_eq!(parse_dir_name("2000-01-12_01-02-03.004"), None);
    assert_eq!(parse_dir_name("2000-01-12_01-02-03..0045"), None);
    assert_eq!(parse_dir_name("2000-01-12 01-02-03..004"), None);
    assert_eq!(parse_dir_name("2000-13-12_01-02-03..004"), None);
    assert_eq!(parse_dir_name("2000-01-12_24-02-03..004"), None);
    assert_eq!(parse_dir_name("2000-01-1é_01-02-03..04"), None);
    assert_eq!(parse_dir_name("20x0-01-12_01-02-03..004"), None);
}

#[test]
fn day_that_does_not_exist_has_no_timestamp() {
    assert!(parse_dir_name("2001-02-30_00-00-00..000").is_some());
    assert_eq!(FileHitStorage::timestamp_of("2001-02-30_00-00-00..000"), None);
}

#[test]
fn fields_are_zero_padded() {
    let t = CivilTime { year: 7, month: 3, day: 9, hour: 0, minute: 5, second: 1, millisecond: 42 };
    assert_eq!(dir_name(&t).unwrap(), "0007-03-09_00-05-01..042");
    assert_eq!(parse_dir_name("0007-03-09_00-05-01..042"), Some(t));
}

#[test]
fn paths_are_joined_below_the_base() {
    let storage = FileHitStorage::new("data/hits");
    assert_eq!(storage.base(), "data/hits");
    assert_eq!(
        storage.dir_for(947_638_923_004).unwrap(),
        "data/hits/2000-01-12_01-02-03..004"
    );
    assert_eq!(
        storage.clip_path(947_638_923_004).unwrap(),
        "data/hits/2000-01-12_01-02-03..004/clip.mp4"
    );
    assert_eq!(
        storage.data_path(947_638_923_004).unwrap(),
        "data/hits/2000-01-12_01-02-03..004/data.json"
    );
    assert_eq!(join("", "a"), "a");
    assert_eq!(join("x/", "a"), "x/a");
    assert_eq!(join("x", "a"), "x/a");
}

fn entry(name: &str, is_dir: bool, data: Option<laser_trainer::hits::storage::HitData>)
    -> laser_trainer::hits::storage::file::StoredEntry
{
    laser_trainer::hits::storage::file::StoredEntry { name: name.to_string(), is_dir, data }
}

fn record(processed: bool) -> laser_trainer::hits::storage::HitData {
    let target_info = laser_trainer::targets::TargetInfo {
        rect: [laser_trainer::util::point::MyPoint::new(0u32, 0u32); 4],
    };
    let processed = if processed {
        Some(laser_trainer::hits::processor::HitProcessResult { score: 0, hit_pos: None })
    } else {
        None
    };
    laser_trainer::hits::storage::HitData { target_info, processed }
}

#[test]
fn listing_gives_the_unscored_hits_oldest_first() {
    let entries = vec![
        entry("2000-01-12_01-02-03..004", true, Some(record(false))),
        entry("1999-12-31_23-59-59..999", true, Some(record(false))),
        entry("2000-01-12_01-02-03..003", true, Some(record(false))),
        // scored
        entry("2000-01-01_00-00-00..000", true, Some(record(true))),
        // no record, or one that cannot be read
        entry("2000-01-02_00-00-00..000", true, None),
        // not a directory
        entry("2000-01-03_00-00-00..000", false, Some(record(false))),
        // not named as a hit is
        entry("notes", true, Some(record(false))),
        entry("2000-01-12_01-02-03.004", true, Some(record(false))),
        // no such day
        entry("2001-02-30_00-00-00..000", true, Some(record(false))),
    ];
    assert_eq!(
        FileHitStorage::unprocessed_old_sorted(&entries),
        vec![946_684_799_999, 947_638_923_003, 947_638_923_004]
    );
    assert!(FileHitStorage::unprocessed_old_sorted(&vec![]).is_empty());
}

#[test]
fn listing_keeps_hits_that_are_listed_twice() {
    let entries = vec![
        entry("1970-01-01_00-00-01..000", true, Some(record(false))),
        entry("1970-01-01_00-00-00..000", true, Some(record(false))),
        entry("1970-01-01_00-00-01..000", true, Some(record(false))),
    ];
    assert_eq!(FileHitStorage::unprocessed_old_sorted(&entries), vec![0, 1_000, 1_000]);
}

#[test]
fn names_sort_as_their_timestamps() {
    let stamps = [
        -62_167_219_200_000i64,
        -1,
        0,
        1,
        999,
        1_000,
        59_999,
        60_000,
        86_399_999,
        86_400_000,
        951_782_400_000,
        951_868_799_999,
        1_700_000_000_123,
        253_402_300_799_999,
    ];
    let names: Vec<String> =
        stamps.iter().map(|&t| FileHitStorage::dir_name_for(t).unwrap()).collect();
    let mut sorted = names.clone();
    sorted.sort();
    assert_eq!(sorted, names);
    assert_eq!(names[0], "0000-01-01_00-00-00..000");
    assert_eq!(names[10], "2000-02-29_00-00-00..000");
    assert_eq!(names[13], "9999-12-31_23-59-59..999");
}

#[test]
fn names_are_what_chrono_prints_and_reads() {
    let layout = "%Y-%m-%d_%H-%M-%S.%.3f";
    let mut state: u64 = 0x9e37_79b9_7f4a_7c15;
    for _ in 0..2_000 {
        state ^= state << 13;
        state ^= state >> 7;
        state ^= state << 17;
        // anywhere in the years 0 to 9999
        let ts = -62_167_219_200_000 + (state % 315_569_520_000_000) as i64;
        let name = FileHitStorage::dir_name_for(ts).unwrap();
        let at = chrono::DateTime::from_timestamp_millis(ts).unwrap();
        assert_eq!(name, at.format(layout).to_string());
        let read = chrono::NaiveDateTime::parse_from_str(&name, layout).unwrap();
        assert_eq!(FileHitStorage::timestamp_of(&name), Some(read.and_utc().timestamp_millis()));
        assert_eq!(FileHitStorage::timestamp_of(&name), Some(ts));
    }
}

#[test]
fn listing_gives_all_hits_under_their_timestamps() {
    let entries = vec![
        entry("2000-01-12_01-02-03..004", true, Some(record(false))),
        entry("1999-12-31_23-59-59..999", true, Some(record(true))),
        // no record, or one that cannot be read
        entry("2000-01-02_00-00-00..000", true, None),
        // not a directory
        entry("2000-01-03_00-00-00..000", false, Some(record(false))),
        // not named as a hit is
        entry("notes", true, Some(record(false))),
        // no such day
        entry("2001-02-30_00-00-00..000", true, Some(record(false))),
    ];
    let hits = FileHitStorage::all_hits(&entries);
    assert_eq!(hits.len(), 2);
    assert_eq!(hits[&947_638_923_004], record(false));
    assert_eq!(hits[&946_684_799_999], record(true));
    assert!(FileHitStorage::all_hits(&vec![]).is_empty());
}

#[test]
fn of_two_entries_for_one_hit_the_later_counts() {
    let entries = vec![
        entry("1970-01-01_00-00-01..000", true, Some(record(false))),
        entry("1970-01-01_00-00-01..000", true, Some(record(true))),
    ];
    let hits = FileHitStorage::all_hits(&entries);
    assert_eq!(hits.len(), 1);
    assert_eq!(hits[&1_000], record(true));
}
