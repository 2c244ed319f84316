use bfn::{new_uuid, uuid_to_ts, Timestamp, Uuid};
use chrono::Datelike;

fn v7_with_millis(millis: u64) -> Uuid {
    let b = millis.to_be_bytes();
    Uuid::from_bytes([
        b[2], b[3], b[4], b[5], b[6], b[7], 0x7c, 0xb5, 0xb7, 0x8c, 0xdc, 0x0f, 0xe5, 0x42, 0x78,
        0x27,
    ])
}

fn seconds_of(ts: &Timestamp) -> f64 {
    ts.second() as f64 + ts.nanosecond() as f64 / 1_000_000_000.0
}

#[test]
fn test_new_uuid() {
    // Generate a UUID
    let v_uuid = new_uuid();
    let uuid_string = v_uuid.to_string();

    // Check that the UUID string is valid and has the correct format
    assert_eq!(uuid_string.len(), 36, "UUID string length is not 36");

    // Ensure the UUID follows the correct structure (8-4-4-4-12 format with hyphens in the right places)
    assert_eq!(
        uuid_string.chars().nth(8),
        Some('-'),
        "Missing hyphen at position 8"
    );
    assert_eq!(
        uuid_string.chars().nth(13),
        Some('-'),
        "Missing hyphen at position 13"
    );
    assert_eq!(
        uuid_string.chars().nth(18),
        Some('-'),
        "Missing hyphen at position 18"
    );
    assert_eq!(
        uuid_string.chars().nth(23),
        Some('-'),
        "Missing hyphen at position 23"
    );

    // Ensure the UUID is entirely alphanumeric (after removing hyphens) and follows UUID standards
    let stripped_uuid = uuid_string.replace("-", "");
    assert_eq!(stripped_uuid.len(), 32, "Stripped UUID length is not 32");
    assert!(
        stripped_uuid.chars().all(|c| c.is_ascii_hexdigit()),
        "UUID contains non-hexadecimal characters"
    );
}

#[test]
fn test_uuid_to_ts_a() {
    // 2023-11-26 16:48:29.952000 +00:00
    let uuid = Uuid::from_bytes([
        0x01, 0x8c, 0x0c, 0x88, 0x53, 0x00, 0x7c, 0xb5, 0xb7, 0x8c, 0xdc, 0x0f, 0xe5, 0x42, 0x78,
        0x27,
    ]);
    let timestamp = uuid_to_ts(uuid);
    assert!(timestamp.is_some());
    let ts = timestamp.unwrap();
    assert_eq!(ts.year(), 2023);
    assert_eq!(ts.month(), 11);
    assert_eq!(ts.day(), 26);
    assert_eq!(ts.hour(), 16);
    assert_eq!(ts.minute(), 48);
    assert!((seconds_of(&ts) - 29.952).abs() < 0.1);
}

#[test]
fn test_uuid_to_ts_b() {
    // An invalid UUID (not version 7)
    let uuid = Uuid::from_bytes([
        0x55, 0x0e, 0x84, 0x00, 0xe2, 0x9b, 0x41, 0xd4, 0xa7, 0x16, 0x44, 0x66, 0x55, 0x44, 0x00,
        0x00,
    ]);
    let timestamp = uuid_to_ts(uuid);
    assert!(timestamp.is_none());
}

#[test]
fn test_uuid_to_ts_c() {
    // A version 7 UUID with an out-of-range timestamp
    let uuid = Uuid::from_bytes([
        0xff, 0xff, 0xff, 0xff, 0xff, 0xff, 0x7f, 0xbb, 0xcc, 0xcc, 0xcc, 0xcc, 0xcc, 0xcc, 0xcc,
        0xcc,
    ]);
    let timestamp = uuid_to_ts(uuid);
    assert!(timestamp.is_none());
}

#[test]
fn new_uuid_has_version_seven_and_decodes() {
    for _ in 0..64 {
        let id = new_uuid();
        assert_eq!(id.as_bytes()[6] >> 4, 7);
        assert_eq!(id.as_bytes()[8] >> 6, 2);
        assert_eq!(id.to_string().chars().nth(14), Some('7'));
        let ts = uuid_to_ts(id).expect("a fresh identifier carries a timestamp");
        assert!(ts.year() >= 2024);
    }
}

#[test]
fn new_uuid_gives_distinct_identifiers() {
    let a = new_uuid();
    let b = new_uuid();
    assert_ne!(a, b);
}

#[test]
fn every_other_version_has_no_timestamp() {
    for version in 0u8..16 {
        if version == 7 {
            continue;
        }
        let mut bytes = *v7_with_millis(1_700_000_000_000).as_bytes();
        bytes[6] = (version << 4) | (bytes[6] & 0x0f);
        assert_eq!(uuid_to_ts(Uuid::from_bytes(bytes)), None, "version {}", version);
    }
}

#[test]
fn the_epoch_decodes_to_new_year_1970() {
    let ts = uuid_to_ts(v7_with_millis(0)).unwrap();
    assert_eq!(
        (ts.year(), ts.month(), ts.day(), ts.hour(), ts.minute(), ts.second(), ts.nanosecond()),
        (1970, 1, 1, 0, 0, 0, 0)
    );
}

#[test]
fn milliseconds_become_nanoseconds() {
    let ts = uuid_to_ts(v7_with_millis(1_700_000_000_123)).unwrap();
    assert_eq!(
        (ts.year(), ts.month(), ts.day(), ts.hour(), ts.minute(), ts.second(), ts.nanosecond()),
        (2023, 11, 14, 22, 13, 20, 123_000_000)
    );
}

#[test]
fn a_leap_day_decodes() {
    // 2024-02-29T12:00:00Z
    let ts = uuid_to_ts(v7_with_millis(1_709_208_000_000)).unwrap();
    assert_eq!((ts.year(), ts.month(), ts.day(), ts.hour()), (2024, 2, 29, 12));
}

#[test]
fn the_last_millisecond_of_9999_decodes_and_the_next_does_not() {
    let ts = uuid_to_ts(v7_with_millis(253_402_300_799_999)).unwrap();
    assert_eq!(
        (ts.year(), ts.month(), ts.day(), ts.hour(), ts.minute(), ts.second(), ts.nanosecond()),
        (9999, 12, 31, 23, 59, 59, 999_000_000)
    );
    assert_eq!(uuid_to_ts(v7_with_millis(253_402_300_800_000)), None);
    assert_eq!(uuid_to_ts(v7_with_millis((1 << 48) - 1)), None);
}

#[test]
fn decoding_ignores_the_bytes_behind_the_version() {
    let mut bytes = *v7_with_millis(1_700_000_000_123).as_bytes();
    let want = uuid_to_ts(Uuid::from_bytes(bytes));
    bytes[6] = 0x70;
    for b in bytes.iter_mut().skip(7) {
        *b = !*b;
    }
    assert_eq!(uuid_to_ts(Uuid::from_bytes(bytes)), want);
}

#[test]
fn timestamps_round_trip_through_the_timestamp_field() {
    // Days from 1970-01-01 by the civil calendar, counted the long way round.
    let month_lengths = |y: i32| {
        let leap = (y % 4 == 0 && y % 100 != 0) || y % 400 == 0;
        [31, if leap { 29 } else { 28 }, 31, 30, 31, 30, 31, 31, 30, 31, 30, 31]
    };
    let mut day_number: u64 = 0;
    for year in 1970..=2200 {
        let lengths = month_lengths(year);
        for month in 1..=12u8 {
            for day in 1..=lengths[month as usize - 1] as u8 {
                if day == 1 || day == 15 || day == lengths[month as usize - 1] as u8 {
                    let millis = day_number * 86_400_000 + (13 * 3600 + 7 * 60 + 5) * 1000 + 250;
                    let ts = uuid_to_ts(v7_with_millis(millis)).unwrap();
                    let want = Timestamp::new(year, month, day, 13, 7, 5, 250_000_000).unwrap();
                    assert_eq!(ts, want);
                }
                day_number += 1;
            }
        }
    }
}

#[test]
fn timestamp_new_checks_its_fields() {
    assert!(Timestamp::new(2024, 2, 29, 0, 0, 0, 0).is_some());
    assert!(Timestamp::new(2023, 2, 29, 0, 0, 0, 0).is_none());
    assert!(Timestamp::new(1900, 2, 29, 0, 0, 0, 0).is_none());
    assert!(Timestamp::new(2000, 2, 29, 0, 0, 0, 0).is_some());
    assert!(Timestamp::new(2024, 0, 1, 0, 0, 0, 0).is_none());
    assert!(Timestamp::new(2024, 13, 1, 0, 0, 0, 0).is_none());
    assert!(Timestamp::new(2024, 4, 31, 0, 0, 0, 0).is_none());
    assert!(Timestamp::new(2024, 4, 0, 0, 0, 0, 0).is_none());
    assert!(Timestamp::new(2024, 1, 1, 24, 0, 0, 0).is_none());
    assert!(Timestamp::new(2024, 1, 1, 0, 60, 0, 0).is_none());
    assert!(Timestamp::new(2024, 1, 1, 0, 0, 60, 0).is_none());
    assert!(Timestamp::new(2024, 1, 1, 0, 0, 0, 1_000_000_000).is_none());
    assert!(Timestamp::new(2024, 12, 31, 23, 59, 59, 999_999_999).is_some());
}

#[test]
fn identifiers_render_in_small_hexadecimal_digits() {
    let id = Uuid::from_bytes([
        0x6c, 0xd3, 0x55, 0x6d, 0xeb, 0x0d, 0xa5, 0x4b, 0xca, 0x06, 0x0b, 0x4c, 0x39, 0x47, 0x98,
        0x39,
    ]);
    assert_eq!(id.to_string(), "6cd3556d-eb0d-a54b-ca06-0b4c39479839");
    assert_eq!(Uuid::from_bytes([0; 16]).to_string(), "00000000-0000-0000-0000-000000000000");
    assert_eq!(Uuid::from_bytes([0xff; 16]).to_string(), "ffffffff-ffff-ffff-ffff-ffffffffffff");
}

#[test]
fn unix_seconds_agree_with_chrono_on_every_day_of_the_years_1_to_9999() {
    let epoch = chrono::NaiveDate::from_ymd_opt(1970, 1, 1).unwrap();
    let mut date = chrono::NaiveDate::from_ymd_opt(1, 1, 1).unwrap();
    let last = chrono::NaiveDate::from_ymd_opt(9999, 12, 31).unwrap();
    loop {
        let ts = Timestamp::new(date.year(), date.month() as u8, date.day() as u8, 7, 8, 9, 0)
            .unwrap();
        let days = date.signed_duration_since(epoch).num_days();
        assert_eq!(ts.unix_seconds(), days * 86_400 + 7 * 3600 + 8 * 60 + 9, "{}", date);
        if date == last {
            break;
        }
        date = date.succ_opt().unwrap();
    }
}

#[test]
fn unix_seconds_agree_with_chrono_in_far_years() {
    for year in [-262_143, -100_000, -401, -400, -1, 0, 10_000, 100_000, 262_142] {
        for (month, day) in [(1, 1), (2, 28), (3, 1), (12, 31)] {
            let ts = Timestamp::new(year, month, day, 23, 59, 59, 0).unwrap();
            let want = chrono::NaiveDate::from_ymd_opt(year, month as u32, day as u32)
                .unwrap()
                .and_hms_opt(23, 59, 59)
                .unwrap()
                .and_utc()
                .timestamp();
            assert_eq!(ts.unix_seconds(), want, "{}-{}-{}", year, month, day);
        }
    }
}

#[test]
fn decoding_gives_back_the_seconds_it_was_given() {
    let mut state: u64 = 0x1234_5678_9ABC_DEF1;
    for _ in 0..20_000 {
        state = state.wrapping_mul(6364136223846793005).wrapping_add(1442695040888963407);
        let millis = (state >> 16) % 253_402_300_800_000;
        let ts = uuid_to_ts(v7_with_millis(millis)).unwrap();
        assert_eq!(ts.unix_seconds() as u64, millis / 1000);
        assert_eq!(ts.nanosecond() as u64, (millis % 1000) * 1_000_000);
    }
}
