//! Times as texts.

use vstd::prelude::*;

use crate::tags::model;
use crate::text;

verus! {

/// How a time is written to the minute.
pub const MINUTE_PATTERN: &'static str = "%Y-%m-%d %H:%M";

/// How the time is written at which a session begins, to the millisecond.
pub const STAMP_PATTERN: &'static str = "%Y%m%d-%H%M%S-%3f";

/// How the time is written in a row of the store, to the second.
pub const STORE_PATTERN: &'static str = "%Y-%m-%d %H:%M:%S";

/// The last second of the year 9999, the last that is written with four digits for its
/// year, in seconds since the start of 1970.
pub const LAST_SECOND: i64 = 253402300799;

/// What `chrono::DateTime::from_timestamp` and `format` make of a number of seconds
/// since the start of 1970, some nanoseconds and a pattern; nothing where the
/// calendar does not reach the time.
pub uninterp spec fn time_text(seconds: i64, nanos: u32, pattern: Seq<char>) -> Option<Seq<char>>;

/// The character of a digit.
pub open spec fn digit(d: int) -> char {
    ('0' as int + d) as char
}

/// A number below 1000 in three digits.
pub open spec fn three_digits(n: int) -> Seq<char> {
    seq![digit(n / 100), digit(n / 10 % 10), digit(n % 10)]
}

/// The milliseconds among some nanoseconds.
pub open spec fn millis_of(nanos: u32) -> int {
    nanos as int / 1000000 % 1000
}

/// The time that is written so many seconds after the start of 1970.
pub open spec fn store_time(seconds: i64) -> Option<Seq<char>> {
    time_text(seconds, 0, STORE_PATTERN@)
}

/// A text is the time of a clock, as it is written in a row of the store.
pub open spec fn is_store_time(now: Seq<char>) -> bool {
    exists|seconds: i64| Some(now) == #[trigger] store_time(seconds)
}

/// A text stands behind the times that are written before so many seconds, and before or
/// at the others: as far as they are written alike.
pub open spec fn parts_times(seconds: i64, written: Seq<char>) -> bool {
    forall|t: i64|
        0 <= t <= LAST_SECOND ==> (#[trigger] store_time(t) matches Some(other)
            && text::text_less(other, written) == (t < seconds))
}

/// `chrono::Utc::now` and `chrono::DateTime::timestamp`: the seconds since the start of
/// 1970. Which they are the clock decides; the calendar reaches them.
#[verifier::external_body]
pub(crate) fn clock_seconds() -> (r: i64)
    ensures
        time_text(r, 0, STORE_PATTERN@) is Some,
{
    chrono::Utc::now().timestamp()
}

/// `chrono::DateTime::from_timestamp`, shown by its `format`. The result is named;
/// a time to the millisecond ends in its milliseconds, in three digits. From 1970 to
/// the year 9999, each part of a time to the second has as many digits as in any other,
/// the year first: such texts are in the order of the times.
#[verifier::external_body]
pub(crate) fn format_time(seconds: i64, nanos: u32, pattern: &str) -> (r: Option<String>)
    requires
        pattern@ == MINUTE_PATTERN@ || pattern@ == STAMP_PATTERN@ || pattern@ == STORE_PATTERN@,
    ensures
        model::opt_text(r) == time_text(seconds, nanos, pattern@),
        pattern@ == STAMP_PATTERN@ && r is Some ==> text::ends_with(
            r->0@,
            three_digits(millis_of(nanos)),
        ),
        pattern@ == STORE_PATTERN@ && nanos == 0 && 0 <= seconds <= LAST_SECOND ==> r is Some
            && parts_times(seconds, r->0@),
{
    chrono::DateTime::from_timestamp(seconds, nanos).map(|t| t.format(pattern).to_string())
}

/// The time of the clock, as it is written in a row of the store.
pub fn current_time() -> (r: String)
    ensures
        is_store_time(r@),
{
    let seconds: i64 = clock_seconds();
    let written: Option<String> = format_time(seconds, 0, STORE_PATTERN);
    assert(model::opt_text(written) == store_time(seconds));
    match written {
        Some(t) => t,
        None => text::copy_str(""),
    }
}

/// Numbers below 1000 have different digits.
pub proof fn lemma_three_digits(a: int, b: int)
    requires
        0 <= a < 1000,
        0 <= b < 1000,
        three_digits(a) == three_digits(b),
    ensures
        a == b,
{
    let (x, y) = (three_digits(a), three_digits(b));
    assert(x[0] == y[0] && x[1] == y[1] && x[2] == y[2]);
    assert(digit(a / 100) as int == 48 + a / 100);
    assert(digit(b / 100) as int == 48 + b / 100);
    assert(digit(a / 10 % 10) as int == 48 + a / 10 % 10);
    assert(digit(b / 10 % 10) as int == 48 + b / 10 % 10);
    assert(digit(a % 10) as int == 48 + a % 10);
    assert(digit(b % 10) as int == 48 + b % 10);
}

/// How times are written: with the date first, to the second in the store, to the minute
/// in the browser, and to the millisecond in the name of a log.
pub proof fn times_are_written_date_first(seconds: i64, nanos: u32)
    ensures
        store_time(seconds) == time_text(seconds, 0, "%Y-%m-%d %H:%M:%S"@),
        MINUTE_PATTERN@ == "%Y-%m-%d %H:%M"@,
        STAMP_PATTERN@ == "%Y%m%d-%H%M%S-%3f"@,
        0 <= millis_of(nanos) < 1000,
        nanos < 1000000000 ==> millis_of(nanos) == nanos / 1000000,
        three_digits(millis_of(nanos)).len() == 3,
{
}

} // verus!
