//! One module for each command, and what they share.
use vstd::prelude::*;

use crate::error::{invalid, invalid_argument, ErrorView, SnatchError};
use crate::text;
use crate::text::{digits_value, is_digit, lowercase};
use crate::time;
use crate::time::{in_calendar, named_day, seconds_of};

pub mod cache;
pub mod chain;
pub mod chunks;
pub mod cleanup;
pub mod code;
pub mod completions;
pub mod config;
pub mod conflicts;
pub mod context;
pub mod decisions;
pub mod detect;
pub mod diff;
pub mod digest;
pub mod doctor;
pub mod export;
pub mod extract;
pub mod file_evolution;
pub mod file_history;
pub mod goals;
pub mod grab;
pub mod health;
pub mod helpers;
pub mod index;
pub mod info;
pub mod lessons;
pub mod list;
pub mod messages;
pub mod monitor;
pub mod notes;
pub mod pick;
pub mod priorities;
pub mod project_lessons;
pub mod prompts;
pub mod providers;
pub mod quickstart;
pub mod recent;

verus! {

/// The form of the output.
#[derive(Debug, Clone, Copy, PartialEq, Eq, Structural)]
pub enum OutputFormat {
    /// For people.
    Text,
    /// JSON.
    Json,
    /// Values with tabs between them.
    Tsv,
    /// One short line for each item.
    Compact,
}

/// Where the session directory is looked for.
#[derive(Debug, Clone, PartialEq, Eq)]
pub enum DirectorySource {
    /// At a given path.
    At(String),
    /// Where it usually is.
    Discover,
}

/// Where the session directory is looked for: at the path that was given, else where it
/// usually is.
pub fn get_claude_dir(custom_path: Option<&String>) -> (r: DirectorySource)
    ensures
        match custom_path {
            Some(path) => r matches DirectorySource::At(p) && p@ == path@,
            None => r is Discover,
        },
{
    match custom_path {
        Some(path) => DirectorySource::At(path.clone()),
        None => DirectorySource::Discover,
    }
}

// ---------------------------------------------------------------------------
// Date filters
// ---------------------------------------------------------------------------

/// The number of digits at the beginning of a text.
pub open spec fn digits_ahead(s: Seq<char>) -> int
    decreases s.len(),
{
    if s.len() == 0 || !is_digit(s[0]) {
        0
    } else {
        1 + digits_ahead(s.drop_first())
    }
}

/// The number of seconds in a unit of time. A month has thirty days and a year has 365.
pub open spec fn unit_seconds(unit: Seq<char>) -> Option<int> {
    if unit == "d"@ || unit == "day"@ || unit == "days"@ {
        Some(86_400)
    } else if unit == "w"@ || unit == "week"@ || unit == "weeks"@ {
        Some(604_800)
    } else if unit == "m"@ || unit == "month"@ || unit == "months"@ {
        Some(2_592_000)
    } else if unit == "y"@ || unit == "year"@ || unit == "years"@ {
        Some(31_536_000)
    } else if unit == "h"@ || unit == "hour"@ || unit == "hours"@ {
        Some(3_600)
    } else {
        None
    }
}

/// What a date filter stands for.
pub enum DateFilter {
    /// A point in time.
    At(int),
    /// No point in time that the calendar holds.
    OutOfRange,
    /// It cannot be read.
    Invalid(ErrorView),
}

/// The point in time that lies a number of seconds before another.
pub open spec fn before_by(now: i128, span: int) -> DateFilter {
    if in_calendar(seconds_of(now)) && in_calendar(seconds_of(now) - span) {
        DateFilter::At(now - span * 1_000_000_000)
    } else {
        DateFilter::OutOfRange
    }
}

/// A date filter that is no date: a number and a unit of time, counted back from `now`.
/// `lower` is the filter in lower case.
pub open spec fn relative_filter(s: Seq<char>, lower: Seq<char>, now: i128) -> DateFilter {
    let k = digits_ahead(lower);
    let digits = lower.take(k);
    let unit = lower.skip(k);
    if k == 0 || k == lower.len() {
        DateFilter::Invalid(
            invalid(
                "date"@,
                "Invalid date '"@ + s
                    + "'. Use YYYY-MM-DD or relative like '1week', '2days'"@,
            ),
        )
    } else if digits_value(digits) > i64::MAX {
        DateFilter::Invalid(invalid("date"@, "Invalid number in date filter: "@ + digits))
    } else {
        match unit_seconds(unit) {
            Some(seconds) => before_by(now, digits_value(digits) * seconds),
            None => DateFilter::Invalid(
                invalid(
                    "date"@,
                    "Unknown time unit '"@ + unit
                        + "'. Use days, weeks, months, or years"@,
                ),
            ),
        }
    }
}

/// What a date filter stands for: a day, or a span of time before `now`.
pub open spec fn date_filter(s: Seq<char>, now: i128) -> DateFilter {
    match named_day(s, "%Y-%m-%d"@) {
        Some(day) => DateFilter::At(day * 86_400 * 1_000_000_000),
        None => relative_filter(s, lowercase(s), now),
    }
}

/// The result states what the filter stands for; none is a point in time that the calendar
/// does not hold.
pub open spec fn states_filter(
    r: Option<Result<i128, SnatchError>>,
    filter: DateFilter,
) -> bool {
    match filter {
        DateFilter::At(time) => r matches Some(Ok(t)) && t == time,
        DateFilter::OutOfRange => r is None,
        DateFilter::Invalid(error) => r matches Some(Err(e)) && e@ == error,
    }
}

fn seconds_in_unit(unit: &str) -> (r: Option<i64>)
    ensures
        match r {
            Some(n) => unit_seconds(unit@) == Some(n as int) && 0 < n <= 31_536_000,
            None => unit_seconds(unit@) is None,
        },
{
    if text::same(unit, "d") || text::same(unit, "day") || text::same(unit, "days") {
        Some(86_400)
    } else if text::same(unit, "w") || text::same(unit, "week") || text::same(unit, "weeks") {
        Some(604_800)
    } else if text::same(unit, "m") || text::same(unit, "month") || text::same(unit, "months") {
        Some(2_592_000)
    } else if text::same(unit, "y") || text::same(unit, "year") || text::same(unit, "years") {
        Some(31_536_000)
    } else if text::same(unit, "h") || text::same(unit, "hour") || text::same(unit, "hours") {
        Some(3_600)
    } else {
        None
    }
}

proof fn lemma_digits_ahead(s: Seq<char>, k: int)
    requires
        0 <= k <= s.len(),
        k < s.len() ==> !is_digit(s[k]),
        forall|j: int| 0 <= j < k ==> is_digit(#[trigger] s[j]),
    ensures
        digits_ahead(s) == k,
    decreases k,
{
    if k > 0 {
        assert(is_digit(s[0]));
        assert forall|j: int| 0 <= j < k - 1 implies is_digit(#[trigger] s.drop_first()[j]) by {
            assert(s.drop_first()[j] == s[j + 1]);
        }
        lemma_digits_ahead(s.drop_first(), k - 1);
    }
}

/// The point in time that lies a number of seconds before `now`.
fn subtract_span(now: i128, amount: u64, unit: i64) -> (r: Option<Result<i128, SnatchError>>)
    requires
        amount <= i64::MAX,
        0 < unit <= 31_536_000,
    ensures
        states_filter(r, before_by(now, amount * unit)),
{
    proof {
        assert(0 <= amount * unit <= 9_223_372_036_854_775_807 * 31_536_000) by (nonlinear_arith)
            requires
                0 <= amount <= 9_223_372_036_854_775_807,
                0 < unit <= 31_536_000,
        ;
    }
    let span: i128 = amount as i128 * unit as i128;
    let (seconds, nanos) = time::split_time(now);
    if span > i64::MAX as i128 || seconds < i64::MIN as i128 || seconds > i64::MAX as i128 {
        return None;
    }
    match time::go_back(seconds as i64, nanos, span as i64) {
        Some((s, n)) => {
            proof {
                assert(now == seconds * 1_000_000_000 + nanos);
            }
            Some(Ok(s as i128 * time::NANOS + n as i128))
        },
        None => None,
    }
}

/// A date filter that is no date. `lower` is the filter in lower case.
pub fn parse_relative_filter(s: &str, lower: &str, now: i128) -> (r: Option<
    Result<i128, SnatchError>,
>)
    ensures
        states_filter(r, relative_filter(s@, lower@, now)),
{
    let x = text::chars_of(lower);
    let mut k: usize = 0;
    while k < x.len() && text::ascii_digit(x[k])
        invariant
            x@ == lower@,
            k <= x@.len(),
            forall|j: int| 0 <= j < k ==> is_digit(#[trigger] x@[j]),
        decreases x@.len() - k,
    {
        k = k + 1;
    }
    proof {
        lemma_digits_ahead(lower@, k as int);
    }
    if k == 0 || k == x.len() {
        return Some(
            Err(
                invalid_argument(
                    "date",
                    text::cat3(
                        "Invalid date '",
                        s,
                        "'. Use YYYY-MM-DD or relative like '1week', '2days'",
                    ),
                ),
            ),
        );
    }
    let digits = text::text_of(&x, 0, k);
    let unit = text::text_of(&x, k, x.len());
    proof {
        assert(digits@ =~= lower@.take(k as int));
        assert(unit@ =~= lower@.skip(k as int));
        assert(is_digit(digits@[0]));
        assert(text::all_digits(digits@));
    }
    match text::parse_number(digits.as_str(), i64::MAX as u64) {
        Some(amount) => match seconds_in_unit(unit.as_str()) {
            Some(seconds) => subtract_span(now, amount, seconds),
            None => Some(
                Err(
                    invalid_argument(
                        "date",
                        text::cat3(
                            "Unknown time unit '",
                            unit.as_str(),
                            "'. Use days, weeks, months, or years",
                        ),
                    ),
                ),
            ),
        },
        None => Some(
            Err(
                invalid_argument(
                    "date",
                    text::cat2("Invalid number in date filter: ", digits.as_str()),
                ),
            ),
        ),
    }
}

/// The point in time that a date filter stands for: a day such as `2024-12-24`, or a span of
/// time before `now` such as `1day` or `2weeks`. None where the calendar does not hold it.
pub fn parse_date_filter(s: &str, now: i128) -> (r: Option<Result<i128, SnatchError>>)
    ensures
        states_filter(r, date_filter(s@, now)),
{
    match time::parse_day(s, "%Y-%m-%d") {
        Some(day) => Some(Ok(day as i128 * 86_400 * time::NANOS)),
        None => {
            let lower = text::to_lowercase(s);
            parse_relative_filter(s, lower.as_str(), now)
        },
    }
}

/// What an optional date filter stands for; `At` with no filter is no bound.
pub enum BoundFilter {
    /// The bound, where there is one.
    Bound(Option<int>),
    /// No point in time that the calendar holds.
    OutOfRange,
    /// It cannot be read.
    Invalid(ErrorView),
}

/// What an optional date filter stands for.
pub open spec fn bound_filter(s: Option<Seq<char>>, now: i128) -> BoundFilter {
    match s {
        None => BoundFilter::Bound(None),
        Some(t) => match date_filter(t, now) {
            DateFilter::At(time) => BoundFilter::Bound(Some(time)),
            DateFilter::OutOfRange => BoundFilter::OutOfRange,
            DateFilter::Invalid(e) => BoundFilter::Invalid(e),
        },
    }
}

/// The text of an optional reference.
pub open spec fn optional_view(s: Option<&str>) -> Option<Seq<char>> {
    match s {
        Some(t) => Some(t@),
        None => None,
    }
}

/// The bound that an optional date filter stands for; none where the calendar does not hold it.
pub fn parse_bound(s: Option<&str>, now: i128) -> (r: Option<Result<Option<i128>, SnatchError>>)
    ensures
        match bound_filter(optional_view(s), now) {
            BoundFilter::Bound(None) => r == Some(Ok::<Option<i128>, SnatchError>(None)),
            BoundFilter::Bound(Some(time)) => r matches Some(Ok(Some(t))) && t == time,
            BoundFilter::OutOfRange => r is None,
            BoundFilter::Invalid(error) => r matches Some(Err(e)) && e@ == error,
        },
{
    match s {
        None => Some(Ok(None)),
        Some(t) => match parse_date_filter(t, now) {
            Some(Ok(time)) => Some(Ok(Some(time))),
            Some(Err(e)) => Some(Err(e)),
            None => None,
        },
    }
}

// ---------------------------------------------------------------------------
// What a date means
// ---------------------------------------------------------------------------

/// A filter names the time that lies so many seconds before now, where the calendar holds both.
pub open spec fn lies_before(filter: DateFilter, now: i128, seconds: int) -> bool {
    if in_calendar(seconds_of(now)) && in_calendar(seconds_of(now) - seconds) {
        filter == DateFilter::At(now - seconds * 1_000_000_000)
    } else {
        filter is OutOfRange
    }
}

proof fn lemma_digits_in_front(digits: Seq<char>, rest: Seq<char>)
    requires
        forall|i: int| 0 <= i < digits.len() ==> is_digit(#[trigger] digits[i]),
        rest.len() == 0 || !is_digit(rest[0]),
    ensures
        digits_ahead(digits + rest) == digits.len(),
    decreases digits.len(),
{
    let all = digits + rest;
    if digits.len() == 0 {
        assert(all =~= rest);
    } else {
        assert(all[0] == digits[0]);
        assert(all.drop_first() =~= digits.drop_first() + rest);
        assert forall|i: int| 0 <= i < digits.drop_first().len() implies is_digit(
            #[trigger] digits.drop_first()[i],
        ) by {
            assert(digits.drop_first()[i] == digits[i + 1]);
        }
        lemma_digits_in_front(digits.drop_first(), rest);
    }
}

proof fn lemma_unit_behind(s: Seq<char>, digits: Seq<char>, unit: Seq<char>, now: i128)
    requires
        named_day(s, "%Y-%m-%d"@) is None,
        digits.len() > 0,
        forall|i: int| 0 <= i < digits.len() ==> is_digit(#[trigger] digits[i]),
        digits_value(digits) <= i64::MAX,
        unit.len() > 0,
        !is_digit(unit[0]),
    ensures
        lowercase(s) == digits + unit && unit_seconds(unit) is Some ==> date_filter(s, now)
            == before_by(now, digits_value(digits) * unit_seconds(unit)->0),
{
    let all = digits + unit;
    lemma_digits_in_front(digits, unit);
    assert(all.take(digits.len() as int) =~= digits);
    assert(all.skip(digits.len() as int) =~= unit);
}

proof fn lemma_unit_words()
    ensures
        unit_seconds("d"@) == Some(86400int),
        unit_seconds("day"@) == Some(86400int),
        unit_seconds("days"@) == Some(86400int),
        unit_seconds("w"@) == Some(604800int),
        unit_seconds("week"@) == Some(604800int),
        unit_seconds("weeks"@) == Some(604800int),
        unit_seconds("m"@) == Some(2592000int),
        unit_seconds("month"@) == Some(2592000int),
        unit_seconds("months"@) == Some(2592000int),
        unit_seconds("y"@) == Some(31536000int),
        unit_seconds("year"@) == Some(31536000int),
        unit_seconds("years"@) == Some(31536000int),
        unit_seconds("h"@) == Some(3600int),
        unit_seconds("hour"@) == Some(3600int),
        unit_seconds("hours"@) == Some(3600int),
{
    reveal_strlit("d");
    reveal_strlit("day");
    reveal_strlit("days");
    reveal_strlit("w");
    reveal_strlit("week");
    reveal_strlit("weeks");
    reveal_strlit("m");
    reveal_strlit("month");
    reveal_strlit("months");
    reveal_strlit("y");
    reveal_strlit("year");
    reveal_strlit("years");
    reveal_strlit("h");
    reveal_strlit("hour");
    reveal_strlit("hours");
    assert("d"@.len() == 1 && "day"@.len() == 3 && "days"@.len() == 4 && "w"@.len() == 1 && "week"@.len() == 4 && "weeks"@.len() == 5 && "m"@.len() == 1 && "month"@.len() == 5 && "months"@.len() == 6 && "y"@.len() == 1 && "year"@.len() == 4 && "years"@.len() == 5 && "h"@.len() == 1 && "hour"@.len() == 4 && "hours"@.len() == 5);
    assert("d"@[0] == 'd' && "day"@[0] == 'd' && "days"@[0] == 'd' && "w"@[0] == 'w' && "week"@[0] == 'w' && "weeks"@[0] == 'w' && "m"@[0] == 'm' && "month"@[0] == 'm' && "months"@[0] == 'm' && "y"@[0] == 'y' && "year"@[0] == 'y' && "years"@[0] == 'y' && "h"@[0] == 'h' && "hour"@[0] == 'h' && "hours"@[0] == 'h');
}

/// A number and a unit name the time that lies so far before now, whatever the case of the letters:
/// hours, days of twenty-four hours, weeks of seven days, months of thirty and years of three
/// hundred and sixty-five.
#[verifier::rlimit(60)]
pub proof fn units_reach_back_from_now(s: Seq<char>, digits: Seq<char>, now: i128)
    requires
        named_day(s, "%Y-%m-%d"@) is None,
        digits.len() > 0,
        forall|i: int| 0 <= i < digits.len() ==> '0' <= #[trigger] digits[i] && digits[i] <= '9',
        digits_value(digits) <= i64::MAX,
    ensures
        lowercase(s) == digits + "d"@ ==> lies_before(
            date_filter(s, now),
            now,
            digits_value(digits) as int * (24 * 3600),
        ),
        lowercase(s) == digits + "day"@ ==> lies_before(
            date_filter(s, now),
            now,
            digits_value(digits) as int * (24 * 3600),
        ),
        lowercase(s) == digits + "days"@ ==> lies_before(
            date_filter(s, now),
            now,
            digits_value(digits) as int * (24 * 3600),
        ),
        lowercase(s) == digits + "w"@ ==> lies_before(
            date_filter(s, now),
            now,
            digits_value(digits) as int * (7 * 24 * 3600),
        ),
        lowercase(s) == digits + "week"@ ==> lies_before(
            date_filter(s, now),
            now,
            digits_value(digits) as int * (7 * 24 * 3600),
        ),
        lowercase(s) == digits + "weeks"@ ==> lies_before(
            date_filter(s, now),
            now,
            digits_value(digits) as int * (7 * 24 * 3600),
        ),
        lowercase(s) == digits + "m"@ ==> lies_before(
            date_filter(s, now),
            now,
            digits_value(digits) as int * (30 * 24 * 3600),
        ),
        lowercase(s) == digits + "month"@ ==> lies_before(
            date_filter(s, now),
            now,
            digits_value(digits) as int * (30 * 24 * 3600),
        ),
        lowercase(s) == digits + "months"@ ==> lies_before(
            date_filter(s, now),
            now,
            digits_value(digits) as int * (30 * 24 * 3600),
        ),
        lowercase(s) == digits + "y"@ ==> lies_before(
            date_filter(s, now),
            now,
            digits_value(digits) as int * (365 * 24 * 3600),
        ),
        lowercase(s) == digits + "year"@ ==> lies_before(
            date_filter(s, now),
            now,
            digits_value(digits) as int * (365 * 24 * 3600),
        ),
        lowercase(s) == digits + "years"@ ==> lies_before(
            date_filter(s, now),
            now,
            digits_value(digits) as int * (365 * 24 * 3600),
        ),
        lowercase(s) == digits + "h"@ ==> lies_before(
            date_filter(s, now),
            now,
            digits_value(digits) as int * (3600),
        ),
        lowercase(s) == digits + "hour"@ ==> lies_before(
            date_filter(s, now),
            now,
            digits_value(digits) as int * (3600),
        ),
        lowercase(s) == digits + "hours"@ ==> lies_before(
            date_filter(s, now),
            now,
            digits_value(digits) as int * (3600),
        ),
{
    lemma_unit_words();
    reveal_strlit("d");
    reveal_strlit("day");
    reveal_strlit("days");
    reveal_strlit("w");
    reveal_strlit("week");
    reveal_strlit("weeks");
    reveal_strlit("m");
    reveal_strlit("month");
    reveal_strlit("months");
    reveal_strlit("y");
    reveal_strlit("year");
    reveal_strlit("years");
    reveal_strlit("h");
    reveal_strlit("hour");
    reveal_strlit("hours");
    assert("d"@.len() == 1 && "day"@.len() == 3 && "days"@.len() == 4 && "w"@.len() == 1 && "week"@.len() == 4 && "weeks"@.len() == 5 && "m"@.len() == 1 && "month"@.len() == 5 && "months"@.len() == 6 && "y"@.len() == 1 && "year"@.len() == 4 && "years"@.len() == 5 && "h"@.len() == 1 && "hour"@.len() == 4 && "hours"@.len() == 5);
    assert("d"@[0] == 'd' && "day"@[0] == 'd' && "days"@[0] == 'd' && "w"@[0] == 'w' && "week"@[0] == 'w' && "weeks"@[0] == 'w' && "m"@[0] == 'm' && "month"@[0] == 'm' && "months"@[0] == 'm' && "y"@[0] == 'y' && "year"@[0] == 'y' && "years"@[0] == 'y' && "h"@[0] == 'h' && "hour"@[0] == 'h' && "hours"@[0] == 'h');
    lemma_unit_behind(s, digits, "d"@, now);
    lemma_unit_behind(s, digits, "day"@, now);
    lemma_unit_behind(s, digits, "days"@, now);
    lemma_unit_behind(s, digits, "w"@, now);
    lemma_unit_behind(s, digits, "week"@, now);
    lemma_unit_behind(s, digits, "weeks"@, now);
    lemma_unit_behind(s, digits, "m"@, now);
    lemma_unit_behind(s, digits, "month"@, now);
    lemma_unit_behind(s, digits, "months"@, now);
    lemma_unit_behind(s, digits, "y"@, now);
    lemma_unit_behind(s, digits, "year"@, now);
    lemma_unit_behind(s, digits, "years"@, now);
    lemma_unit_behind(s, digits, "h"@, now);
    lemma_unit_behind(s, digits, "hour"@, now);
    lemma_unit_behind(s, digits, "hours"@, now);
}

/// A day of the calendar names its first instant, counted in days of twenty-four hours.
pub proof fn days_name_their_beginning(s: Seq<char>, day: i64, now: i128)
    requires
        named_day(s, "%Y-%m-%d"@) == Some(day),
    ensures
        date_filter(s, now) == DateFilter::At(day * (24 * 60 * 60) * 1_000_000_000),
        bound_filter(Some(s), now) == BoundFilter::Bound(
            Some(day * (24 * 60 * 60) * 1_000_000_000),
        ),
        bound_filter(None, now) == BoundFilter::Bound(None),
{
}

} // verus!
