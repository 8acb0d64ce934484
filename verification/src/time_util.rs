//! Rendering of commit timestamps: as an absolute date in a strftime-like
//! format, and as the time that has passed between two of them.
//!
//! The calendar work is chrono's and jiff's. What this module decides is
//! written over plain numbers: the seconds, nanoseconds and offset that a
//! timestamp stands for, which format strings are usable, when a timestamp is
//! out of range, and in which units a duration is shown.

use jiff::tz::{Offset, TimeZone};
use jiff::{Unit, ZonedDifference};
use vstd::prelude::*;
use vstd::string::StringExecFns;

verus! {

/// Milliseconds since the Unix epoch; negative before it.
#[derive(Clone, Copy, Debug, PartialEq, Eq, Structural)]
pub struct MillisSinceEpoch(pub i64);

/// An instant together with the offset from UTC, in minutes, of the place
/// where it was recorded.
#[derive(Clone, Copy, Debug, PartialEq, Eq, Structural)]
pub struct Timestamp {
    pub timestamp: MillisSinceEpoch,
    pub tz_offset: i32,
}

/// The timestamp names a date that the calendar cannot show, or a duration
/// runs backwards.
#[derive(Clone, Copy, Debug, PartialEq, Eq, Structural)]
pub struct TimestampOutOfRange;

impl TimestampOutOfRange {
    /// The message of this error.
    pub fn message(&self) -> (text: String)
        ensures
            text@ == "Out-of-range date"@,
    {
        "Out-of-range date".to_owned()
    }
}

/// The kinds of item that a format string is made of.
#[derive(Clone, Copy, Debug, PartialEq, Eq, Structural)]
pub enum ItemKind {
    /// Literal text, borrowed from the format string.
    Literal,
    /// Literal text that the item owns.
    OwnedLiteral,
    /// Whitespace, borrowed from the format string.
    Space,
    /// Whitespace that the item owns.
    OwnedSpace,
    /// A number, such as the year.
    Numeric,
    /// Another field, such as the name of the month or the offset.
    Fixed,
    /// A specifier that is not understood.
    Error,
}

/// The units in which a duration is shown.
#[derive(Clone, Copy, Debug, PartialEq, Eq, Structural)]
pub enum SpanUnit {
    Second,
    Minute,
    Hour,
    Day,
    Year,
}

/// A date and time at a fixed offset from UTC, as plain numbers.
#[derive(Clone, Copy, Debug, PartialEq, Eq, Structural)]
pub struct FixedDateTime {
    /// Whole seconds since the Unix epoch.
    pub secs: i64,
    /// Nanoseconds since the last whole second.
    pub nanos: u32,
    /// Seconds by which the local time is ahead of UTC.
    pub offset_secs: i32,
}

/// The first second that chrono's `DateTime<Utc>` can hold: the start of the
/// year -262143.
pub const MIN_UTC_SECONDS: i64 = -8_334_601_228_800;

/// The last second that chrono's `DateTime<Utc>` can hold: the end of the
/// year 262142.
pub const MAX_UTC_SECONDS: i64 = 8_210_266_876_799;

/// The first second that jiff's `Timestamp` can hold.
pub const MIN_JIFF_SECONDS: i64 = -377_705_023_201;

/// The last second that jiff's `Timestamp` can hold.
pub const MAX_JIFF_SECONDS: i64 = 253_402_207_200;

/// The largest offset from UTC, in seconds, that jiff's `Offset` can hold.
pub const MAX_JIFF_OFFSET: i32 = 93_599;

/// The format of an absolute timestamp where none is configured.
pub const DEFAULT_FORMAT: &'static str = "%Y-%m-%d %H:%M:%S.%3f %:z";

/// The kinds of the items that chrono's `StrftimeItems` reads from `format`.
pub uninterp spec fn strftime_item_kinds(format: Seq<char>) -> Seq<ItemKind>;

/// The text that chrono writes for the instant `secs` and `nanos`, shown at
/// the offset `offset_secs`, with the items of `format`; `None` where chrono
/// reports an error while it writes.
pub uninterp spec fn formatted_datetime(
    secs: int,
    nanos: int,
    offset_secs: int,
    format: Seq<char>,
) -> Option<Seq<char>>;

/// The text of the span that jiff finds from the first instant to the
/// second, both taken at the offset `offset_secs`, rounded to `smallest` and
/// balanced up to `largest`; `None` where jiff finds no span.
pub uninterp spec fn span_text(
    from_secs: int,
    from_nanos: int,
    offset_secs: int,
    to_secs: int,
    to_nanos: int,
    smallest: SpanUnit,
    largest: SpanUnit,
) -> Option<Seq<char>>;

/// Whole seconds since the epoch, rounded down.
pub open spec fn seconds_of(ts: Timestamp) -> int {
    ts.timestamp.0 as int / 1000
}

/// Nanoseconds since the last whole second.
pub open spec fn nanos_of(ts: Timestamp) -> int {
    (ts.timestamp.0 as int % 1000) * 1_000_000
}

/// The offset in seconds at which the timestamp is shown: its own where that
/// is less than a day, else none.
pub open spec fn shown_offset(ts: Timestamp) -> int {
    if -86_400 < ts.tz_offset * 60 < 86_400 {
        ts.tz_offset * 60
    } else {
        0
    }
}

/// The calendar can show the timestamp.
pub open spec fn in_calendar_range(ts: Timestamp) -> bool {
    MIN_UTC_SECONDS <= seconds_of(ts) <= MAX_UTC_SECONDS
}

/// jiff can hold the timestamp with its offset.
pub open spec fn in_span_range(ts: Timestamp) -> bool {
    &&& MIN_JIFF_SECONDS <= seconds_of(ts) <= MAX_JIFF_SECONDS
    &&& -MAX_JIFF_OFFSET <= ts.tz_offset * 60 <= MAX_JIFF_OFFSET
}

/// What chrono writes for `ts` with the items of `format`, if it writes it.
pub open spec fn absolute_text(ts: Timestamp, format: Seq<char>) -> Option<Seq<char>> {
    formatted_datetime(seconds_of(ts), nanos_of(ts), shown_offset(ts), format)
}

/// chrono can write `ts` with the items of `format`, where the calendar can
/// show `ts` at all.
pub open spec fn timestamp_renders(ts: Timestamp, format: Seq<char>) -> bool {
    in_calendar_range(ts) ==> absolute_text(ts, format) is Some
}

/// No item of `format` is an error.
pub open spec fn parses(format: Seq<char>) -> bool {
    !strftime_item_kinds(format).contains(ItemKind::Error)
}

/// The kind of the item that owns what an item of the kind `kind` borrows.
pub open spec fn owned_kind(kind: ItemKind) -> ItemKind {
    match kind {
        ItemKind::Literal => ItemKind::OwnedLiteral,
        ItemKind::Space => ItemKind::OwnedSpace,
        other => other,
    }
}

/// The kinds of `kinds` after each item has taken ownership of its text.
pub open spec fn owned_kinds(kinds: Seq<ItemKind>) -> Seq<ItemKind> {
    kinds.map_values(|k: ItemKind| owned_kind(k))
}

/// The smallest and the largest unit in which a duration of `elapsed_ms`
/// milliseconds is shown: days up to years from a day on, else the largest
/// unit of which it holds one.
pub open spec fn units_for(elapsed_ms: int) -> (SpanUnit, SpanUnit) {
    if elapsed_ms >= 86_400_000 {
        (SpanUnit::Day, SpanUnit::Year)
    } else if elapsed_ms >= 3_600_000 {
        (SpanUnit::Hour, SpanUnit::Hour)
    } else if elapsed_ms >= 60_000 {
        (SpanUnit::Minute, SpanUnit::Minute)
    } else {
        (SpanUnit::Second, SpanUnit::Second)
    }
}

/// The text of the span from `from` to `to`, as jiff finds it.
pub open spec fn elapsed_text(from: Timestamp, to: Timestamp) -> Option<Seq<char>> {
    let units = units_for(to.timestamp.0 - from.timestamp.0);
    span_text(
        seconds_of(from),
        nanos_of(from),
        from.tz_offset * 60,
        seconds_of(to),
        nanos_of(to),
        units.0,
        units.1,
    )
}

/// The duration from `from` to `to` can be told: both can be shown, and `to`
/// is not the earlier.
pub open spec fn duration_exists(from: Timestamp, to: Timestamp) -> bool {
    in_calendar_range(from) && in_calendar_range(to) && from.timestamp.0 <= to.timestamp.0
}

/// jiff can render the duration from `from` to `to`.
pub open spec fn duration_renders(from: Timestamp, to: Timestamp) -> bool {
    in_span_range(from) && in_span_range(to) && elapsed_text(from, to) is Some
}

/// chrono's `TimeZone::timestamp_opt`, on `Utc`: whether it makes a date of
/// `secs` and `nanos`. With less than a second of nanoseconds it does so
/// exactly for the seconds of the years -262143 to 262142.
#[verifier::external_body]
fn utc_timestamp_exists(secs: i64, nanos: u32) -> (r: bool)
    requires
        nanos < 1_000_000_000,
    ensures
        r == (MIN_UTC_SECONDS <= secs <= MAX_UTC_SECONDS),
{
    !matches!(
        chrono::TimeZone::timestamp_opt(&chrono::Utc, secs, nanos),
        chrono::LocalResult::None
    )
}

/// chrono's `FixedOffset::east_opt`: whether it takes `secs` for an offset.
/// It takes what is less than a day either way.
#[verifier::external_body]
fn fixed_offset_exists(secs: i32) -> (r: bool)
    ensures
        r == (-86_400 < secs < 86_400),
{
    chrono::FixedOffset::east_opt(secs).is_some()
}

/// chrono's `StrftimeItems::new`, walked to its end: the kind of each item
/// that it reads from `format`.
#[verifier::external_body]
fn strftime_kinds(format: &str) -> (kinds: Vec<ItemKind>)
    ensures
        kinds@ == strftime_item_kinds(format@),
{
    chrono::format::StrftimeItems::new(format)
        .map(|item| match item {
            chrono::format::Item::Literal(_) => ItemKind::Literal,
            chrono::format::Item::OwnedLiteral(_) => ItemKind::OwnedLiteral,
            chrono::format::Item::Space(_) => ItemKind::Space,
            chrono::format::Item::OwnedSpace(_) => ItemKind::OwnedSpace,
            chrono::format::Item::Numeric(_, _) => ItemKind::Numeric,
            chrono::format::Item::Fixed(_) => ItemKind::Fixed,
            chrono::format::Item::Error => ItemKind::Error,
        })
        .collect()
}

/// chrono's `DateTime::format_with_items` and `DelayedFormat::write_to`, on
/// the date that `secs` and `nanos` make, moved to the offset `offset_secs`,
/// with the items of `format`. It is called only where chrono makes the date
/// and the offset. Where chrono reports an error while writing, as it does
/// for an item that it cannot write, there is no text. What comes back is a
/// function of the four arguments.
#[verifier::external_body]
fn format_datetime(secs: i64, nanos: u32, offset_secs: i32, format: &str) -> (text: Option<String>)
    requires
        MIN_UTC_SECONDS <= secs <= MAX_UTC_SECONDS,
        nanos < 1_000_000_000,
        -86_400 < offset_secs < 86_400,
    ensures
        match text {
            Some(text) => formatted_datetime(
                secs as int,
                nanos as int,
                offset_secs as int,
                format@,
            ) == Some(text@),
            None => formatted_datetime(secs as int, nanos as int, offset_secs as int, format@)
                is None,
        },
{
    let utc = chrono::TimeZone::timestamp_opt(&chrono::Utc, secs, nanos).unwrap();
    let zone = chrono::FixedOffset::east_opt(offset_secs).unwrap();
    let items = chrono::format::StrftimeItems::new(format);
    let mut text = String::new();
    match utc.with_timezone(&zone).format_with_items(items).write_to(&mut text) {
        Ok(()) => Some(text),
        Err(_) => None,
    }
}

/// jiff's `Offset::from_seconds`: whether it takes `secs` for an offset. It
/// takes up to 25:59:59 either way.
#[verifier::external_body]
fn jiff_offset_exists(secs: i32) -> (r: bool)
    ensures
        r == (-MAX_JIFF_OFFSET <= secs <= MAX_JIFF_OFFSET),
{
    jiff::tz::Offset::from_seconds(secs).is_ok()
}

/// jiff's `Timestamp::new`: whether it makes a timestamp of `secs` and
/// `nanos`. With nanoseconds from 0 to less than a second it does so exactly
/// for the seconds between its two limits.
#[verifier::external_body]
fn jiff_timestamp_exists(secs: i64, nanos: i32) -> (r: bool)
    requires
        0 <= nanos < 1_000_000_000,
    ensures
        r == (MIN_JIFF_SECONDS <= secs <= MAX_JIFF_SECONDS),
{
    jiff::Timestamp::new(secs, nanos).is_ok()
}

/// jiff's `Zoned::until`, from the first instant to the second, both in the
/// time zone of the fixed offset `offset_secs`, with the smallest and the
/// largest unit given; then the span's `Debug` text. It is called only where
/// jiff makes the offset and both timestamps. Where `until` fails there is
/// no text.
#[verifier::external_body]
fn span_between(
    from_secs: i64,
    from_nanos: i32,
    offset_secs: i32,
    to_secs: i64,
    to_nanos: i32,
    smallest: SpanUnit,
    largest: SpanUnit,
) -> (text: Option<String>)
    requires
        MIN_JIFF_SECONDS <= from_secs <= MAX_JIFF_SECONDS,
        MIN_JIFF_SECONDS <= to_secs <= MAX_JIFF_SECONDS,
        0 <= from_nanos < 1_000_000_000,
        0 <= to_nanos < 1_000_000_000,
        -MAX_JIFF_OFFSET <= offset_secs <= MAX_JIFF_OFFSET,
    ensures
        match text {
            Some(text) => span_text(
                from_secs as int,
                from_nanos as int,
                offset_secs as int,
                to_secs as int,
                to_nanos as int,
                smallest,
                largest,
            ) == Some(text@),
            None => span_text(
                from_secs as int,
                from_nanos as int,
                offset_secs as int,
                to_secs as int,
                to_nanos as int,
                smallest,
                largest,
            ) is None,
        },
{
    let unit = |unit: SpanUnit| match unit {
        SpanUnit::Second => Unit::Second,
        SpanUnit::Minute => Unit::Minute,
        SpanUnit::Hour => Unit::Hour,
        SpanUnit::Day => Unit::Day,
        SpanUnit::Year => Unit::Year,
    };
    let zone = TimeZone::fixed(Offset::from_seconds(offset_secs).unwrap());
    let a = jiff::Timestamp::new(from_secs, from_nanos).unwrap().to_zoned(zone.clone());
    let b = jiff::Timestamp::new(to_secs, to_nanos).unwrap().to_zoned(zone);
    let difference = ZonedDifference::new(&b).smallest(unit(smallest)).largest(unit(largest));
    a.until(difference).ok().map(|span| format!("{:#?}", span))
}

/// A strftime-like format that has been read and found free of errors.
#[derive(Clone, Debug, PartialEq, Eq)]
pub struct FormattingItems {
    format: String,
    kinds: Vec<ItemKind>,
}

impl FormattingItems {
    /// The format string that the items were read from.
    pub closed spec fn format(&self) -> Seq<char> {
        self.format@
    }

    /// The kinds of the items.
    pub closed spec fn kinds(&self) -> Seq<ItemKind> {
        self.kinds@
    }

    /// The items are those of the format string, owned or not, and none is
    /// an error.
    pub open spec fn wf(&self) -> bool {
        &&& parses(self.format())
        &&& owned_kinds(self.kinds()) == owned_kinds(strftime_item_kinds(self.format()))
    }

    /// Parses strftime-like format string. There is no result where an item
    /// of it is an error.
    pub fn parse(format: &str) -> (r: Option<FormattingItems>)
        ensures
            r is Some <==> parses(format@),
            r matches Some(items) ==> items.wf() && items.format() == format@ && items.kinds()
                == strftime_item_kinds(format@),
    {
        let kinds = strftime_kinds(format);
        let mut i: usize = 0;
        while i < kinds.len()
            invariant
                i <= kinds@.len(),
                kinds@ == strftime_item_kinds(format@),
                forall|j: int| 0 <= j < i ==> kinds@[j] != ItemKind::Error,
            decreases kinds@.len() - i,
        {
            if kinds[i] == ItemKind::Error {
                return None;
            }
            i += 1;
        }
        Some(FormattingItems { format: format.to_owned(), kinds })
    }

    /// The same items, each owning its text.
    pub fn into_owned(self) -> (r: FormattingItems)
        ensures
            self.wf() ==> r.wf(),
            r.format() == self.format(),
            r.kinds() == owned_kinds(self.kinds()),
    {
        let mut kinds: Vec<ItemKind> = Vec::new();
        let mut i: usize = 0;
        while i < self.kinds.len()
            invariant
                i <= self.kinds@.len(),
                kinds@ == owned_kinds(self.kinds@.take(i as int)),
            decreases self.kinds@.len() - i,
        {
            let kind = match self.kinds[i] {
                ItemKind::Literal => ItemKind::OwnedLiteral,
                ItemKind::OwnedLiteral => ItemKind::OwnedLiteral,
                ItemKind::Space => ItemKind::OwnedSpace,
                ItemKind::OwnedSpace => ItemKind::OwnedSpace,
                ItemKind::Numeric => ItemKind::Numeric,
                ItemKind::Fixed => ItemKind::Fixed,
                ItemKind::Error => ItemKind::Error,
            };
            kinds.push(kind);
            proof {
                assert(self.kinds@.take(i + 1) =~= self.kinds@.take(i as int).push(
                    self.kinds@[i as int],
                ));
                assert(kinds@ =~= owned_kinds(self.kinds@.take(i + 1)));
            }
            i += 1;
        }
        proof {
            assert(self.kinds@.take(self.kinds@.len() as int) =~= self.kinds@);
            assert(owned_kinds(kinds@) =~= owned_kinds(self.kinds@));
        }
        FormattingItems { format: self.format, kinds }
    }

    /// The format string that the items were read from.
    pub fn as_str(&self) -> (text: &str)
        ensures
            text@ == self.format(),
    {
        self.format.as_str()
    }
}

/// The date and time that `context` stands for, at the offset at which it
/// is shown. An offset of a day or more is not used: the time is then shown
/// in UTC.
pub fn datetime_from_timestamp(context: &Timestamp) -> (r: Result<
    FixedDateTime,
    TimestampOutOfRange,
>)
    ensures
        r is Ok <==> in_calendar_range(*context),
        r matches Ok(datetime) ==> datetime.secs == seconds_of(*context) && datetime.nanos
            == nanos_of(*context) && datetime.offset_secs == shown_offset(*context),
{
    let millis = context.timestamp.0;
    let secs = match millis.checked_div_euclid(1000) {
        Some(secs) => secs,
        None => {
            return Err(TimestampOutOfRange);
        },
    };
    let nanos = match millis.checked_rem_euclid(1000) {
        Some(rest) => (rest as u32) * 1_000_000,
        None => {
            return Err(TimestampOutOfRange);
        },
    };
    if !utc_timestamp_exists(secs, nanos) {
        return Err(TimestampOutOfRange);
    }
    let offset_secs = match context.tz_offset.checked_mul(60) {
        Some(offset) => if fixed_offset_exists(offset) {
            offset
        } else {
            0
        },
        None => 0,
    };
    Ok(FixedDateTime { secs, nanos, offset_secs })
}

/// Formats `timestamp` with `format`.
///
/// There is an error where the calendar cannot show the timestamp.
/// Otherwise chrono must be able to write it with the items of `format`.
pub fn format_absolute_timestamp_with(timestamp: &Timestamp, format: &FormattingItems) -> (r: Result<
    String,
    TimestampOutOfRange,
>)
    requires
        timestamp_renders(*timestamp, format.format()),
    ensures
        r is Ok <==> in_calendar_range(*timestamp),
        r matches Ok(text) ==> absolute_text(*timestamp, format.format()) == Some(text@),
{
    match datetime_from_timestamp(timestamp) {
        Ok(datetime) => {
            let text = format_datetime(
                datetime.secs,
                datetime.nanos,
                datetime.offset_secs,
                format.as_str(),
            );
            match text {
                Some(text) => Ok(text),
                None => Err(TimestampOutOfRange),
            }
        },
        Err(e) => Err(e),
    }
}

/// Formats `timestamp` with `format`, after making sure that chrono can
/// write it; `None` where it cannot.
pub fn try_format_absolute_timestamp_with(timestamp: &Timestamp, format: &FormattingItems) -> (r:
    Option<Result<String, TimestampOutOfRange>>)
    ensures
        r is Some <==> timestamp_renders(*timestamp, format.format()),
        r matches Some(formatted) ==> {
            &&& formatted is Ok <==> in_calendar_range(*timestamp)
            &&& formatted matches Ok(text) ==> absolute_text(*timestamp, format.format()) == Some(
                text@,
            )
        },
{
    match datetime_from_timestamp(timestamp) {
        Ok(datetime) => {
            let text = format_datetime(
                datetime.secs,
                datetime.nanos,
                datetime.offset_secs,
                format.as_str(),
            );
            if text.is_none() {
                return None;
            }
        },
        Err(_) => {},
    }
    Some(format_absolute_timestamp_with(timestamp, format))
}

/// Formats `timestamp` with the default format.
///
/// The default format must be usable, and chrono must be able to write the
/// timestamp with it where the calendar can show the timestamp.
pub fn format_absolute_timestamp(timestamp: &Timestamp) -> (r: Result<String, TimestampOutOfRange>)
    requires
        parses(DEFAULT_FORMAT@),
        timestamp_renders(*timestamp, DEFAULT_FORMAT@),
    ensures
        r is Ok <==> in_calendar_range(*timestamp),
        r matches Ok(text) ==> absolute_text(*timestamp, DEFAULT_FORMAT@) == Some(text@),
{
    match FormattingItems::parse(DEFAULT_FORMAT) {
        Some(format) => format_absolute_timestamp_with(timestamp, &format),
        None => Err(TimestampOutOfRange),
    }
}

/// Formats `timestamp` with the default format, after making sure that the
/// default format can be used and that chrono can write the timestamp with
/// it; `None` where either fails.
pub fn try_format_absolute_timestamp(timestamp: &Timestamp) -> (r: Option<
    Result<String, TimestampOutOfRange>,
>)
    ensures
        r is Some <==> parses(DEFAULT_FORMAT@) && timestamp_renders(*timestamp, DEFAULT_FORMAT@),
        r matches Some(formatted) ==> {
            &&& formatted is Ok <==> in_calendar_range(*timestamp)
            &&& formatted matches Ok(text) ==> absolute_text(*timestamp, DEFAULT_FORMAT@) == Some(
                text@,
            )
        },
{
    let format = match FormattingItems::parse(DEFAULT_FORMAT) {
        Some(format) => format,
        None => {
            return None;
        },
    };
    match datetime_from_timestamp(timestamp) {
        Ok(datetime) => {
            let text = format_datetime(
                datetime.secs,
                datetime.nanos,
                datetime.offset_secs,
                format.as_str(),
            );
            if text.is_none() {
                return None;
            }
        },
        Err(_) => {},
    }
    Some(format_absolute_timestamp(timestamp))
}

/// An instant and an offset that jiff holds, as plain numbers.
#[derive(Clone, Copy, Debug, PartialEq, Eq, Structural)]
pub struct ZonedInstant {
    pub secs: i64,
    pub nanos: i32,
    pub offset_secs: i32,
}

/// jiff cannot hold the timestamp or its offset.
#[derive(Clone, Copy, Debug, PartialEq, Eq, Structural)]
pub struct SpanRangeError;

/// The instant and the offset of `value` as jiff holds them.
pub fn timestamp_to_jiff(value: &Timestamp) -> (r: Result<ZonedInstant, SpanRangeError>)
    ensures
        r is Ok <==> in_span_range(*value),
        r matches Ok(zoned) ==> zoned.secs == seconds_of(*value) && zoned.nanos == nanos_of(*value)
            && zoned.offset_secs == value.tz_offset * 60,
{
    let offset_secs = match value.tz_offset.checked_mul(60) {
        Some(offset) => offset,
        None => {
            return Err(SpanRangeError);
        },
    };
    if !jiff_offset_exists(offset_secs) {
        return Err(SpanRangeError);
    }
    let millis = value.timestamp.0;
    let secs = match millis.checked_div_euclid(1000) {
        Some(secs) => secs,
        None => {
            return Err(SpanRangeError);
        },
    };
    let nanos = match millis.checked_rem_euclid(1000) {
        Some(rest) => (rest as i32) * 1_000_000,
        None => {
            return Err(SpanRangeError);
        },
    };
    if !jiff_timestamp_exists(secs, nanos) {
        return Err(SpanRangeError);
    }
    Ok(ZonedInstant { secs, nanos, offset_secs })
}

/// The units in which a duration of `elapsed_ms` milliseconds is shown.
pub fn pick_units(elapsed_ms: i64) -> (units: (SpanUnit, SpanUnit))
    ensures
        units == units_for(elapsed_ms as int),
{
    if elapsed_ms >= 86_400_000 {
        (SpanUnit::Day, SpanUnit::Year)
    } else if elapsed_ms >= 3_600_000 {
        (SpanUnit::Hour, SpanUnit::Hour)
    } else if elapsed_ms >= 60_000 {
        (SpanUnit::Minute, SpanUnit::Minute)
    } else {
        (SpanUnit::Second, SpanUnit::Second)
    }
}

/// What is shown for a duration whose span reads `span`.
pub fn render_elapsed(span: String) -> (text: String)
    ensures
        text@ == span@ + " ago"@,
{
    span.concat(" ago")
}

/// Formats the time that has passed from `from` to `to`.
///
/// There is an error where one of the two cannot be shown or `to` is the
/// earlier. Otherwise jiff must be able to render the duration.
pub fn format_duration(from: &Timestamp, to: &Timestamp) -> (r: Result<String, TimestampOutOfRange>)
    requires
        duration_exists(*from, *to) ==> duration_renders(*from, *to),
    ensures
        r is Ok <==> duration_exists(*from, *to),
        r matches Ok(text) ==> text@ == elapsed_text(*from, *to)->0 + " ago"@,
{
    let end = match datetime_from_timestamp(to) {
        Ok(end) => end,
        Err(e) => {
            return Err(e);
        },
    };
    let start = match datetime_from_timestamp(from) {
        Ok(start) => start,
        Err(e) => {
            return Err(e);
        },
    };
    if to.timestamp.0 < from.timestamp.0 {
        return Err(TimestampOutOfRange);
    }
    let a = match timestamp_to_jiff(from) {
        Ok(a) => a,
        Err(_) => {
            return Err(TimestampOutOfRange);
        },
    };
    let b = match timestamp_to_jiff(to) {
        Ok(b) => b,
        Err(_) => {
            return Err(TimestampOutOfRange);
        },
    };
    let (smallest, largest) = pick_units(to.timestamp.0 - from.timestamp.0);
    match span_between(a.secs, a.nanos, a.offset_secs, b.secs, b.nanos, smallest, largest) {
        Some(span) => Ok(render_elapsed(span)),
        None => Err(TimestampOutOfRange),
    }
}

/// Formats the time that has passed from `from` to `to`, after making sure
/// that jiff can render it; `None` where it cannot.
pub fn try_format_duration(from: &Timestamp, to: &Timestamp) -> (r: Option<
    Result<String, TimestampOutOfRange>,
>)
    ensures
        r is Some <==> (duration_exists(*from, *to) ==> duration_renders(*from, *to)),
        r matches Some(formatted) ==> {
            &&& formatted is Ok <==> duration_exists(*from, *to)
            &&& formatted matches Ok(text) ==> text@ == elapsed_text(*from, *to)->0 + " ago"@
        },
{
    let shown = datetime_from_timestamp(to).is_ok() && datetime_from_timestamp(from).is_ok();
    if shown && from.timestamp.0 <= to.timestamp.0 {
        let a = match timestamp_to_jiff(from) {
            Ok(a) => a,
            Err(_) => {
                return None;
            },
        };
        let b = match timestamp_to_jiff(to) {
            Ok(b) => b,
            Err(_) => {
                return None;
            },
        };
        let (smallest, largest) = pick_units(to.timestamp.0 - from.timestamp.0);
        if span_between(a.secs, a.nanos, a.offset_secs, b.secs, b.nanos, smallest, largest).is_none() {
            return None;
        }
    }
    Some(format_duration(from, to))
}

} // verus!
