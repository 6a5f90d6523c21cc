use chainlink::clock::{parse_datetime, parse_datetime_or, Timestamp};

fn at(secs: i64, nanos: u32) -> Timestamp {
    Timestamp { secs, nanos }
}

#[test]
fn rfc3339_text_is_parsed_to_its_instant() {
    let fallback = at(-1, 7);
    assert_eq!(parse_datetime_or("2024-01-01T00:00:00Z", fallback), at(1_704_067_200, 0));
    assert_eq!(
        parse_datetime_or("2024-01-01T00:00:00+00:00", fallback),
        at(1_704_067_200, 0)
    );
    assert_eq!(
        parse_datetime_or("2024-01-01T01:00:00.5+01:00", fallback),
        at(1_704_067_200, 500_000_000)
    );
    assert_eq!(parse_datetime_or("1970-01-01T00:00:00Z", fallback), at(0, 0));
    assert_eq!(
        parse_datetime_or("1969-12-31T23:59:59.000000001Z", fallback),
        at(-1, 1)
    );
}

#[test]
fn malformed_text_gives_the_fallback() {
    let fallback = at(42, 43);
    for text in ["", "not a date", "2024-01-01", "2024-13-01T00:00:00Z", "2024-01-01T00:00:00"] {
        assert_eq!(parse_datetime_or(text, fallback), fallback);
    }
}

#[test]
fn malformed_text_reads_as_the_present() {
    let before = Timestamp::now();
    let read = parse_datetime("garbage");
    let after = Timestamp::now();
    assert!(before <= read && read <= after);
    assert_eq!(parse_datetime("2000-01-01T00:00:00Z"), at(946_684_800, 0));
}

#[test]
fn instants_are_written_as_rfc3339() {
    assert_eq!(
        at(1_704_067_200, 0).to_rfc3339().as_deref(),
        Some("2024-01-01T00:00:00+00:00")
    );
    assert_eq!(
        at(1_704_067_200, 500_000_000).to_rfc3339().as_deref(),
        Some("2024-01-01T00:00:00.500+00:00")
    );
    assert_eq!(at(0, 1).to_rfc3339().as_deref(), Some("1970-01-01T00:00:00.000000001+00:00"));
    assert_eq!(at(i64::MAX, 0).to_rfc3339(), None);
    assert_eq!(at(i64::MIN, 0).to_rfc3339(), None);
}

#[test]
fn writing_and_parsing_agree() {
    for t in [at(0, 0), at(1_704_067_200, 123_456_789), at(-86_400, 999_000_000)] {
        let text = t.to_rfc3339().unwrap();
        assert_eq!(parse_datetime_or(&text, at(1, 1)), t);
    }
}

#[test]
fn the_clock_does_not_run_backwards_much() {
    let a = Timestamp::now();
    let b = Timestamp::now();
    assert!(a.secs > 1_600_000_000);
    assert!(b.secs >= a.secs - 1);
    assert!(a.nanos < 2_000_000_000);
}

#[test]
fn earlier_and_later() {
    assert!(at(1, 0).is_before(&at(2, 0)));
    assert!(at(1, 5).is_before(&at(1, 6)));
    assert!(!at(1, 6).is_before(&at(1, 6)));
    assert!(!at(2, 0).is_before(&at(1, 999_999_999)));
    assert!(at(-5, 0).is_before(&at(-4, 0)));
    assert!(at(i64::MIN, 0).is_before(&at(i64::MAX, 0)));
}

#[test]
fn elapsed_seconds_round_toward_zero() {
    assert_eq!(at(10, 0).elapsed_seconds(&at(15, 0)), 5);
    assert_eq!(at(10, 900_000_000).elapsed_seconds(&at(15, 100_000_000)), 4);
    assert_eq!(at(10, 100_000_000).elapsed_seconds(&at(15, 900_000_000)), 5);
    assert_eq!(at(15, 0).elapsed_seconds(&at(10, 0)), -5);
    assert_eq!(at(15, 100_000_000).elapsed_seconds(&at(10, 900_000_000)), -4);
    assert_eq!(at(15, 900_000_000).elapsed_seconds(&at(10, 100_000_000)), -5);
    assert_eq!(at(7, 3).elapsed_seconds(&at(7, 3)), 0);
    assert_eq!(at(7, 0).elapsed_seconds(&at(7, 999_999_999)), 0);
    assert_eq!(at(i64::MIN, 0).elapsed_seconds(&at(i64::MAX, 0)), i64::MAX);
    assert_eq!(at(i64::MAX, 0).elapsed_seconds(&at(i64::MIN, 0)), i64::MIN);
    assert_eq!(at(0, 0).elapsed_seconds(&at(i64::MAX, 999_999_999)), i64::MAX);
}

#[test]
fn older_than_counts_whole_days_before_now() {
    let now = at(1_000_000, 500);
    let day = 86_400;
    assert!(at(1_000_000 - 2 * day, 0).is_older_than(&now, 1));
    assert!(!at(1_000_000 - day + 1, 0).is_older_than(&now, 1));
    // exactly one day before now is not older than a day
    assert!(!at(1_000_000 - day, 500).is_older_than(&now, 1));
    assert!(at(1_000_000 - day, 499).is_older_than(&now, 1));
    assert!(at(999_999, 0).is_older_than(&now, 0));
    assert!(!at(1_000_000, 500).is_older_than(&now, 0));
    // a negative number of days reaches into the future
    assert!(at(1_000_000 + day - 1, 0).is_older_than(&now, -1));
    assert!(!at(0, 0).is_older_than(&now, i64::MAX));
    assert!(at(i64::MAX, 0).is_older_than(&now, i64::MIN));
}

#[test]
fn the_present_can_be_written_and_read_back() {
    for _ in 0..3 {
        let now = Timestamp::now();
        let text = now.to_rfc3339().unwrap();
        assert!(text.ends_with("+00:00"));
        assert_eq!(parse_datetime_or(&text, at(0, 0)), now);
    }
}
