use push_planner::time_util::{
    datetime_from_timestamp, format_absolute_timestamp, format_absolute_timestamp_with,
    format_duration, pick_units, render_elapsed, timestamp_to_jiff, try_format_absolute_timestamp,
    try_format_absolute_timestamp_with, try_format_duration, FixedDateTime, FormattingItems, MillisSinceEpoch, SpanRangeError,
    SpanUnit, Timestamp, TimestampOutOfRange, ZonedInstant, MAX_JIFF_SECONDS, MAX_UTC_SECONDS,
    MIN_JIFF_SECONDS, MIN_UTC_SECONDS,
};

fn at(millis: i64, tz_offset: i32) -> Timestamp {
    Timestamp { timestamp: MillisSinceEpoch(millis), tz_offset }
}

#[test]
fn the_default_format_shows_date_time_and_offset() {
    let formatted = format_absolute_timestamp(&at(1_700_000_000_123, 90));
    assert_eq!(formatted, Ok("2023-11-14 23:43:20.123 +01:30".to_string()));
    let formatted = format_absolute_timestamp(&at(0, 0));
    assert_eq!(formatted, Ok("1970-01-01 00:00:00.000 +00:00".to_string()));
    let formatted = format_absolute_timestamp(&at(-1, -60));
    assert_eq!(formatted, Ok("1969-12-31 22:59:59.999 -01:00".to_string()));
    assert_eq!(try_format_absolute_timestamp(&at(0, 0)), Some(format_absolute_timestamp(&at(0, 0))));
}

#[test]
fn an_offset_of_a_day_or_more_is_shown_as_utc() {
    let formatted = format_absolute_timestamp(&at(0, 24 * 60));
    assert_eq!(formatted, Ok("1970-01-01 00:00:00.000 +00:00".to_string()));
    let formatted = format_absolute_timestamp(&at(0, 24 * 60 - 1));
    assert_eq!(formatted, Ok("1970-01-01 23:59:00.000 +23:59".to_string()));
    let formatted = format_absolute_timestamp(&at(0, -24 * 60));
    assert_eq!(formatted, Ok("1970-01-01 00:00:00.000 +00:00".to_string()));
    let formatted = format_absolute_timestamp(&at(0, i32::MAX));
    assert_eq!(formatted, Ok("1970-01-01 00:00:00.000 +00:00".to_string()));
}

#[test]
fn a_date_beyond_the_calendar_is_out_of_range() {
    assert_eq!(format_absolute_timestamp(&at(i64::MAX, 0)), Err(TimestampOutOfRange));
    assert_eq!(format_absolute_timestamp(&at(i64::MIN, 0)), Err(TimestampOutOfRange));
    let last = at(MAX_UTC_SECONDS * 1000 + 999, 0);
    assert_eq!(
        format_absolute_timestamp(&last),
        Ok("+262142-12-31 23:59:59.999 +00:00".to_string())
    );
    assert_eq!(format_absolute_timestamp(&at(MAX_UTC_SECONDS * 1000 + 1000, 0)), Err(TimestampOutOfRange));
    let first = at(MIN_UTC_SECONDS * 1000, 0);
    assert_eq!(
        format_absolute_timestamp(&first),
        Ok("-262143-01-01 00:00:00.000 +00:00".to_string())
    );
    assert_eq!(format_absolute_timestamp(&at(MIN_UTC_SECONDS * 1000 - 1, 0)), Err(TimestampOutOfRange));
    assert_eq!(TimestampOutOfRange.message(), "Out-of-range date");
}

#[test]
fn a_timestamp_is_split_into_seconds_nanoseconds_and_offset() {
    assert_eq!(
        datetime_from_timestamp(&at(1_500, 60)),
        Ok(FixedDateTime { secs: 1, nanos: 500_000_000, offset_secs: 3600 })
    );
    assert_eq!(
        datetime_from_timestamp(&at(-1, -1439)),
        Ok(FixedDateTime { secs: -1, nanos: 999_000_000, offset_secs: -86_340 })
    );
    assert_eq!(
        datetime_from_timestamp(&at(-1000, 1440)),
        Ok(FixedDateTime { secs: -1, nanos: 0, offset_secs: 0 })
    );
    assert_eq!(datetime_from_timestamp(&at(i64::MIN, 0)), Err(TimestampOutOfRange));
}

#[test]
fn a_format_with_an_unknown_specifier_does_not_parse() {
    assert!(FormattingItems::parse("%Y-%m-%d").is_some());
    assert!(FormattingItems::parse("plain text").is_some());
    assert!(FormattingItems::parse("").is_some());
    assert!(FormattingItems::parse("%Q").is_none());
    assert!(FormattingItems::parse("%Y %").is_none());
    assert_eq!(FormattingItems::parse("%H:%M").map(|f| f.as_str().to_string()), Some("%H:%M".to_string()));
}

#[test]
fn a_custom_format_is_used() {
    let format = FormattingItems::parse("%Y/%m/%d at %H.%M %z").unwrap();
    let formatted = format_absolute_timestamp_with(&at(1_700_000_000_123, -300), &format);
    assert_eq!(formatted, Ok("2023/11/14 at 17.13 -0500".to_string()));
    let owned = format.clone().into_owned();
    assert_eq!(owned.as_str(), "%Y/%m/%d at %H.%M %z");
    assert_ne!(owned, format);
    assert_eq!(owned.clone().into_owned(), owned);
    let again = format_absolute_timestamp_with(&at(1_700_000_000_123, -300), &owned);
    assert_eq!(again, formatted);
    assert_eq!(
        format_absolute_timestamp_with(&at(i64::MAX, 0), &owned),
        Err(TimestampOutOfRange)
    );
}

#[test]
fn an_item_that_cannot_be_written_is_not_attempted() {
    // The item is read without an error, but there is no way to write it.
    let format = FormattingItems::parse("%#z").unwrap();
    assert_eq!(try_format_absolute_timestamp_with(&at(0, 0), &format), None);
    assert_eq!(try_format_absolute_timestamp_with(&at(0, 0), &format.into_owned()), None);
    let format = FormattingItems::parse("%Y %#z").unwrap();
    assert_eq!(try_format_absolute_timestamp_with(&at(0, 60), &format), None);
    // Out of range comes first: nothing is written then.
    assert_eq!(
        try_format_absolute_timestamp_with(&at(i64::MAX, 0), &format),
        Some(Err(TimestampOutOfRange))
    );
    let format = FormattingItems::parse("%Y %z").unwrap();
    assert_eq!(
        try_format_absolute_timestamp_with(&at(0, 60), &format),
        Some(Ok("1970 +0100".to_string()))
    );
    assert_eq!(
        try_format_absolute_timestamp_with(&at(i64::MIN, 60), &format),
        Some(Err(TimestampOutOfRange))
    );
    assert_eq!(
        try_format_absolute_timestamp(&at(i64::MIN, 60)),
        Some(Err(TimestampOutOfRange))
    );
}

#[test]
fn every_other_item_is_written_up_to_the_limits_of_the_calendar() {
    let every = "%Y %C %y %q %m %b %B %h %d %e %a %A %w %u %U %W %G %g %V %j %D %x %F %v \
                 %H %k %I %l %P %p %M %S %f %.f %.3f %.6f %.9f %3f %6f %9f %R %T %X %r \
                 %Z %z %:z %::z %:::z %c %+ %s %t %n %% %-d %_H %0e";
    let format = FormattingItems::parse(every).unwrap();
    for timestamp in [
        at(0, 0),
        at(MIN_UTC_SECONDS * 1000, -1439),
        at(MIN_UTC_SECONDS * 1000, 1439),
        at(MAX_UTC_SECONDS * 1000 + 999, -1439),
        at(MAX_UTC_SECONDS * 1000 + 999, 1439),
    ] {
        let formatted = try_format_absolute_timestamp_with(&timestamp, &format);
        assert!(matches!(formatted, Some(Ok(_))));
        assert_eq!(format_absolute_timestamp_with(&timestamp, &format), formatted.unwrap());
    }
    let last = at(MAX_UTC_SECONDS * 1000 + 999, 1439);
    assert_eq!(
        format_absolute_timestamp(&last),
        Ok("+262143-01-01 23:58:59.999 +23:59".to_string())
    );
}

#[test]
fn a_timestamp_is_taken_over_where_it_fits() {
    assert_eq!(
        timestamp_to_jiff(&at(-1, 90)),
        Ok(ZonedInstant { secs: -1, nanos: 999_000_000, offset_secs: 5400 })
    );
    assert_eq!(
        timestamp_to_jiff(&at(MAX_JIFF_SECONDS * 1000 + 999, 1559)),
        Ok(ZonedInstant { secs: MAX_JIFF_SECONDS, nanos: 999_000_000, offset_secs: 93_540 })
    );
    assert_eq!(timestamp_to_jiff(&at(MAX_JIFF_SECONDS * 1000 + 1000, 0)), Err(SpanRangeError));
    assert_eq!(
        timestamp_to_jiff(&at(MIN_JIFF_SECONDS * 1000, -1559)),
        Ok(ZonedInstant { secs: MIN_JIFF_SECONDS, nanos: 0, offset_secs: -93_540 })
    );
    assert_eq!(timestamp_to_jiff(&at(MIN_JIFF_SECONDS * 1000 - 1, 0)), Err(SpanRangeError));
    assert_eq!(timestamp_to_jiff(&at(0, 1560)), Err(SpanRangeError));
    assert_eq!(timestamp_to_jiff(&at(0, -1560)), Err(SpanRangeError));
    assert_eq!(timestamp_to_jiff(&at(0, i32::MIN)), Err(SpanRangeError));
}

#[test]
fn units_grow_with_the_duration() {
    assert_eq!(pick_units(0), (SpanUnit::Second, SpanUnit::Second));
    assert_eq!(pick_units(59_999), (SpanUnit::Second, SpanUnit::Second));
    assert_eq!(pick_units(60_000), (SpanUnit::Minute, SpanUnit::Minute));
    assert_eq!(pick_units(3_599_999), (SpanUnit::Minute, SpanUnit::Minute));
    assert_eq!(pick_units(3_600_000), (SpanUnit::Hour, SpanUnit::Hour));
    assert_eq!(pick_units(86_399_999), (SpanUnit::Hour, SpanUnit::Hour));
    assert_eq!(pick_units(86_400_000), (SpanUnit::Day, SpanUnit::Year));
    assert_eq!(render_elapsed("3h".to_string()), "3h ago");
}

#[test]
fn a_duration_is_shown_in_its_units() {
    let start = at(1_700_000_000_000, 60);
    let later = |millis: i64| at(1_700_000_000_000 + millis, -120);
    assert_eq!(format_duration(&start, &later(0)), Ok("0s ago".to_string()));
    assert_eq!(format_duration(&start, &later(42_999)), Ok("42s ago".to_string()));
    assert_eq!(format_duration(&start, &later(60_000)), Ok("1m ago".to_string()));
    assert_eq!(format_duration(&start, &later(59 * 60_000 + 59_000)), Ok("59m ago".to_string()));
    assert_eq!(format_duration(&start, &later(5 * 3_600_000 + 1)), Ok("5h ago".to_string()));
    assert_eq!(format_duration(&start, &later(24 * 3_600_000)), Ok("1d ago".to_string()));
    assert_eq!(
        format_duration(&start, &later(400 * 24 * 3_600_000)),
        Ok("1y 1mo 4d ago".to_string())
    );
    assert_eq!(
        try_format_duration(&start, &later(42_999)),
        Some(Ok("42s ago".to_string()))
    );
}

#[test]
fn a_duration_that_runs_backwards_is_out_of_range() {
    let start = at(1_700_000_000_000, 0);
    assert_eq!(format_duration(&start, &at(1_699_999_999_999, 0)), Err(TimestampOutOfRange));
    assert_eq!(format_duration(&start, &at(i64::MAX, 0)), Err(TimestampOutOfRange));
    assert_eq!(format_duration(&at(i64::MIN, 0), &start), Err(TimestampOutOfRange));
    assert_eq!(
        try_format_duration(&start, &at(1_699_999_999_999, 0)),
        Some(Err(TimestampOutOfRange))
    );
    assert_eq!(try_format_duration(&at(i64::MIN, 2000), &start), Some(Err(TimestampOutOfRange)));
}

#[test]
fn a_duration_that_cannot_be_rendered_is_not_attempted() {
    let start = at(1_700_000_000_000, 0);
    assert_eq!(try_format_duration(&start, &at(1_700_000_000_000, 1560)), None);
    assert_eq!(try_format_duration(&at(0, -1560), &start), None);
    assert_eq!(try_format_duration(&start, &at(MAX_JIFF_SECONDS * 1000 + 1000, 0)), None);
    assert_eq!(try_format_duration(&at(MIN_JIFF_SECONDS * 1000 - 1, 0), &start), None);
    let across = try_format_duration(
        &at(MIN_JIFF_SECONDS * 1000, 0),
        &at(MAX_JIFF_SECONDS * 1000 + 999, 0),
    );
    assert!(matches!(across, None | Some(Ok(_))));
}
