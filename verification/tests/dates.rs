use papyr::dates::{is_after, now_timestamp, parse, rfc2822, today};

#[test]
fn parses_the_supported_forms() {
    assert_eq!(
        parse("2026-06-24").unwrap().to_rfc3339(),
        "2026-06-24T00:00:00+00:00"
    );
    assert_eq!(
        parse("2026-06-24 09:15:00").unwrap().to_rfc3339(),
        "2026-06-24T09:15:00+00:00"
    );
    assert_eq!(
        parse("2026-06-24T14:30:00+02:00").unwrap().to_rfc3339(),
        "2026-06-24T14:30:00+02:00"
    );
}

#[test]
fn parse_rejects_garbage_and_impossible_dates() {
    assert!(parse("not-a-date").is_none());
    assert!(parse("2026-13-99").is_none());
    assert!(parse("").is_none());
}

#[test]
fn rfc2822_includes_the_time_or_falls_back() {
    assert_eq!(rfc2822("2026-06-24"), "Wed, 24 Jun 2026 00:00:00 +0000");
    assert_eq!(
        rfc2822("2026-06-24T14:30:00+02:00"),
        "Wed, 24 Jun 2026 14:30:00 +0200"
    );
    assert_eq!(
        rfc2822("2026-06-24 09:15:00"),
        "Wed, 24 Jun 2026 09:15:00 +0000"
    );
    assert_eq!(rfc2822("2026-13-99"), "2026-13-99");
}

#[test]
fn newer_timestamps_sort_after_older() {
    assert!(is_after(&parse("2026-06-24T10:00:00Z"), &parse("2026-06-24T09:00:00Z")));
    assert!(is_after(&parse("2026-06-24T00:00:01Z"), &parse("2026-06-24")));
}

#[test]
fn now_helpers_are_well_formed() {
    assert_eq!(today().len(), 10);
    assert!(parse(&now_timestamp()).is_some());
}

#[test]
fn parse_trims_and_reads_minutes_only_forms() {
    let t = parse("  2026-06-24 14:30  ").unwrap();
    assert_eq!(t.to_rfc3339(), "2026-06-24T14:30:00+00:00");
    assert_eq!(parse("2026-06-24T14:30").unwrap().to_rfc3339(), "2026-06-24T14:30:00+00:00");
    assert_eq!(t.offset, 0);
}

#[test]
fn parse_keeps_the_instant_and_offset() {
    let a = parse("2026-06-24T14:30:00+02:00").unwrap();
    let b = parse("2026-06-24T12:30:00Z").unwrap();
    assert_eq!(a.secs, b.secs);
    assert_eq!(a.offset, 7200);
    assert_eq!(b.offset, 0);
    // the same instant is neither after the other
    assert!(!is_after(&Some(a), &Some(b)));
    assert!(!is_after(&Some(b), &Some(a)));
}

#[test]
fn midnight_is_the_unix_day_start() {
    assert_eq!(parse("1970-01-01").unwrap().secs, 0);
    assert_eq!(parse("1970-01-02").unwrap().secs, 86_400);
    assert_eq!(papyr::dates::midnight_utc(719_163).secs, 0);
}

#[test]
fn unreadable_dates_sort_last() {
    assert!(is_after(&parse("1900-01-01"), &parse("garbage")));
    assert!(!is_after(&parse("garbage"), &parse("1900-01-01")));
    assert!(!is_after(&None, &None));
}

#[test]
fn rfc2822_falls_back_for_years_it_cannot_write() {
    // chrono reads a five-digit year with a sign, which RFC 2822 cannot write
    assert!(parse("+12345-01-01").is_some());
    assert_eq!(rfc2822("+12345-01-01"), "+12345-01-01");
}

#[test]
fn now_helpers_have_their_fixed_shape() {
    let d = today();
    let t = now_timestamp();
    for (i, c) in d.chars().enumerate() {
        assert_eq!(c == '-', i == 4 || i == 7, "{d}");
        assert!(c == '-' || c.is_ascii_digit(), "{d}");
    }
    assert_eq!(t.len(), 25);
    for (i, c) in t.chars().enumerate() {
        match i {
            4 | 7 => assert_eq!(c, '-'),
            10 => assert_eq!(c, 'T'),
            13 | 16 | 22 => assert_eq!(c, ':'),
            19 => assert!(c == '+' || c == '-'),
            _ => assert!(c.is_ascii_digit(), "{t}"),
        }
    }
}
