use resurfacer::clock::{lasted, UtcTime, MAX_SECONDS, MIN_SECONDS};

fn at(secs: i64, nanos: u32) -> UtcTime {
    UtcTime::from_timestamp(secs, nanos).unwrap()
}

#[test]
fn times_are_written_as_rfc3339() {
    assert_eq!(at(0, 0).to_rfc3339(), "1970-01-01T00:00:00+00:00");
    assert_eq!(at(1_700_000_000, 0).to_rfc3339(), "2023-11-14T22:13:20+00:00");
    assert_eq!(at(1_700_000_000, 500_000_000).to_rfc3339(), "2023-11-14T22:13:20.500+00:00");
    assert_eq!(at(1_700_000_000, 1_000).to_rfc3339(), "2023-11-14T22:13:20.000001+00:00");
    assert_eq!(at(1_700_000_000, 7).to_rfc3339(), "2023-11-14T22:13:20.000000007+00:00");
}

#[test]
fn written_times_are_read_back() {
    let parts = [
        (0, 0),
        (-1, 999_999_999),
        (1_700_000_000, 123_456_789),
        (1_700_000_000, 120_000_000),
        (MIN_SECONDS, 0),
        (MAX_SECONDS, 999_999_999),
        (-62_167_219_200, 0),
        (-62_167_219_201, 0),
        (253_402_300_799, 999_999_999),
        (253_402_300_800, 0),
        // leap seconds
        (59, 1_000_000_000),
        (1_483_228_799, 1_500_000_000),
        (MAX_SECONDS, 1_999_999_999),
        (-1, 1_000_000_001),
    ];
    for (secs, nanos) in parts {
        let text = at(secs, nanos).to_rfc3339();
        let back = UtcTime::parse(&text).unwrap();
        assert_eq!((back.timestamp(), back.timestamp_subsec_nanos()), (secs, nanos), "{}", text);
    }
}

#[test]
fn texts_stand_in_the_order_of_the_times() {
    let times = [
        at(-62_167_219_200, 0),
        at(-1, 999_999_999),
        at(-1, 1_200_000_000),
        at(0, 0),
        at(0, 1),
        at(0, 999),
        at(0, 1_000),
        at(0, 1_001),
        at(0, 1_000_000),
        at(0, 500_000_000),
        at(0, 500_000_001),
        at(0, 999_999_999),
        at(1, 0),
        at(59, 999_999_999),
        at(59, 1_000_000_000),
        at(59, 1_999_999_999),
        at(60, 0),
        at(1_700_000_000, 0),
        at(253_402_300_799, 999_999_999),
    ];
    for i in 0..times.len() {
        for j in 0..times.len() {
            assert_eq!(times[i].to_rfc3339() < times[j].to_rfc3339(), i < j, "{} {}", i, j);
        }
    }
}

#[test]
fn texts_that_are_no_times_are_not_read() {
    for text in ["", "yesterday", "2024-01-01", "2024-13-01T00:00:00Z", "1970-01-01T00:00:00"] {
        assert!(UtcTime::parse(text).is_none(), "{}", text);
    }
}

#[test]
fn a_time_with_an_offset_is_read_as_utc() {
    let t = UtcTime::parse("1970-01-01T02:00:00.25+02:00").unwrap();
    assert_eq!((t.timestamp(), t.timestamp_subsec_nanos()), (0, 250_000_000));
}

#[test]
fn only_times_in_range_can_be_made() {
    assert!(UtcTime::from_timestamp(MIN_SECONDS - 1, 0).is_none());
    assert!(UtcTime::from_timestamp(MAX_SECONDS + 1, 0).is_none());
    assert!(UtcTime::from_timestamp(0, 1_000_000_000).is_none());
    assert!(UtcTime::from_timestamp(59, 2_000_000_000).is_none());
    assert!(UtcTime::from_timestamp(i64::MIN, 0).is_none());
    assert!(UtcTime::from_timestamp(i64::MAX, 0).is_none());
    // the same limits as chrono's
    assert!(chrono::DateTime::from_timestamp(MIN_SECONDS, 0).is_some());
    assert!(chrono::DateTime::from_timestamp(MIN_SECONDS - 1, 0).is_none());
    assert!(chrono::DateTime::from_timestamp(MAX_SECONDS, 0).is_some());
    assert!(chrono::DateTime::from_timestamp(MAX_SECONDS + 1, 0).is_none());
    assert!(chrono::DateTime::from_timestamp(0, 1_000_000_000).is_none());
    assert!(chrono::DateTime::from_timestamp(-1, 1_000_000_000).is_some());
}

#[test]
fn hours_are_taken_off() {
    let t = at(1_700_000_000, 5).minus_hours(8);
    assert_eq!((t.timestamp(), t.timestamp_subsec_nanos()), (1_699_971_200, 5));
    let t = at(0, 0).minus_hours(1);
    assert_eq!(t.to_rfc3339(), "1969-12-31T23:00:00+00:00");
}

#[test]
fn the_clock_shows_a_time_after_2020() {
    let now = UtcTime::now();
    assert!(now.timestamp() > 1_577_836_800);
    assert!(now.timestamp_subsec_nanos() < 1_000_000_000);
}

#[test]
fn a_span_has_lasted_from_its_last_nanosecond_on() {
    assert!(!lasted(10, 4_000_000_009, 4));
    assert!(lasted(10, 4_000_000_010, 4));
    assert!(lasted(10, 10, 0));
    // a clock that seems to run backwards shows no time at all
    assert!(lasted(10, 5, 0));
    assert!(!lasted(10, 5, 1));
    assert!(!lasted(0, u64::MAX, u64::MAX));
}
