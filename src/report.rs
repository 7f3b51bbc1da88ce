//! The timesheet report: per-day totals of the time entries, the expected
//! duration of each day, the running balance, and the gap-filling pass that
//! makes the report contiguous in dates.

use vstd::prelude::*;

use crate::calendar::{Date, TimeOfDay, MAX_TIMESTAMP_SECONDS, SECONDS_PER_DAY};
use crate::duration::{Duration, MAX_DURATION_SECONDS};
use crate::models::{Event, ExpectedDuration, TimeEntry, TimeSheetRow};

verus! {

/// Whether some entry starts on `day`: the days with activity.
pub open spec fn is_active(entries: Seq<TimeEntry>, day: int) -> bool {
    exists|i: int| 0 <= i < entries.len() && #[trigger] entries[i].start.day_number() == day
}

/// Whether every entry is well formed.
pub open spec fn entries_wf(entries: Seq<TimeEntry>) -> bool {
    forall|i: int| 0 <= i < entries.len() ==> #[trigger] entries[i].wf()
}

/// Whether every expected duration is well formed.
pub open spec fn expected_wf(expected: Seq<ExpectedDuration>) -> bool {
    forall|i: int| 0 <= i < expected.len() ==> #[trigger] expected[i].wf()
}

/// The worked seconds of `day`: the spans of the closed entries that start on
/// that day, summed. An entry that crosses midnight counts wholly on the day
/// it starts; an open entry counts zero.
pub open spec fn actual_seconds(entries: Seq<TimeEntry>, day: int) -> int
    decreases entries.len(),
{
    if entries.len() == 0 {
        0
    } else {
        let e = entries.last();
        actual_seconds(entries.drop_last(), day) + if e.start.day_number() == day {
            e.closed_seconds()
        } else {
            0
        }
    }
}

/// The worked seconds of all days up to and including `day`.
pub open spec fn actual_through(entries: Seq<TimeEntry>, day: int) -> int
    decreases entries.len(),
{
    if entries.len() == 0 {
        0
    } else {
        let e = entries.last();
        actual_through(entries.drop_last(), day) + if e.start.day_number() <= day {
            e.closed_seconds()
        } else {
            0
        }
    }
}

/// The expected seconds of `day`: the stored expected duration of that date
/// (the last one stored, should there be several), else the default.
pub open spec fn expected_seconds(
    expected: Seq<ExpectedDuration>,
    default: Duration,
    day: int,
) -> int
    decreases expected.len(),
{
    if expected.len() == 0 {
        default.seconds as int
    } else if expected.last().date.day == day {
        expected.last().duration.seconds as int
    } else {
        expected_seconds(expected.drop_last(), default, day)
    }
}

/// The earliest day on which an entry starts (zero when there is none).
pub open spec fn first_day(entries: Seq<TimeEntry>) -> int
    decreases entries.len(),
{
    if entries.len() == 0 {
        0
    } else if entries.len() == 1 {
        entries[0].start.day_number()
    } else {
        let p = first_day(entries.drop_last());
        let d = entries.last().start.day_number();
        if d < p {
            d
        } else {
            p
        }
    }
}

/// The expected seconds of all days with activity up to and including `day`.
pub open spec fn expected_through(
    entries: Seq<TimeEntry>,
    expected: Seq<ExpectedDuration>,
    default: Duration,
    day: int,
) -> int
    decreases day - first_day(entries) + 1,
{
    if day < first_day(entries) {
        0
    } else {
        expected_through(entries, expected, default, day - 1) + if is_active(entries, day) {
            expected_seconds(expected, default, day)
        } else {
            0
        }
    }
}

/// The balance (saldo) at the end of `day`: over all days with activity up
/// to and including `day`, the worked seconds less the expected seconds.
pub open spec fn balance(
    entries: Seq<TimeEntry>,
    expected: Seq<ExpectedDuration>,
    default: Duration,
    day: int,
) -> int {
    actual_through(entries, day) - expected_through(entries, expected, default, day)
}

/// The earliest time of day, in seconds, at which an entry of `day` starts;
/// a whole day's seconds when none does.
pub open spec fn earliest_start(entries: Seq<TimeEntry>, day: int) -> int
    decreases entries.len(),
{
    if entries.len() == 0 {
        SECONDS_PER_DAY as int
    } else {
        let p = earliest_start(entries.drop_last(), day);
        let e = entries.last();
        if e.start.day_number() == day && e.start.second_of_day() < p {
            e.start.second_of_day()
        } else {
            p
        }
    }
}

/// The distinct names of the events of `day`, in the order of their first
/// occurrence.
pub open spec fn names_on(events: Seq<Event>, day: int) -> Seq<Seq<char>>
    decreases events.len(),
{
    if events.len() == 0 {
        seq![]
    } else {
        let prev = names_on(events.drop_last(), day);
        let e = events.last();
        if e.time.day_number() == day && !prev.contains(e.name@) {
            prev.push(e.name@)
        } else {
            prev
        }
    }
}

/// The names joined by a comma and a space.
pub open spec fn joined(names: Seq<Seq<char>>) -> Seq<char>
    decreases names.len(),
{
    if names.len() == 0 {
        seq![]
    } else if names.len() == 1 {
        names[0]
    } else {
        joined(names.drop_last()) + seq![',', ' '] + names.last()
    }
}

/// Whether `x` seconds fit in a duration.
pub open spec fn duration_fits(x: int) -> bool {
    -MAX_DURATION_SECONDS <= x <= MAX_DURATION_SECONDS
}

/// Whether the worked seconds, the delta and the balance of `day` fit in a
/// duration.
pub open spec fn day_fits(
    entries: Seq<TimeEntry>,
    expected: Seq<ExpectedDuration>,
    default: Duration,
    day: int,
) -> bool {
    &&& duration_fits(actual_seconds(entries, day))
    &&& duration_fits(actual_seconds(entries, day) - expected_seconds(expected, default, day))
    &&& duration_fits(balance(entries, expected, default, day))
}

/// Whether `row` is the report row of its date.
pub open spec fn row_matches(
    row: TimeSheetRow,
    entries: Seq<TimeEntry>,
    expected: Seq<ExpectedDuration>,
    events: Seq<Event>,
    default: Duration,
) -> bool {
    let day = row.date.day as int;
    let actual = actual_seconds(entries, day);
    let planned = expected_seconds(expected, default, day);
    let sob = earliest_start(entries, day);
    &&& row.actual_duration.seconds == actual
    &&& row.expected_duration.seconds == planned
    &&& row.delta.seconds == actual - planned
    &&& row.saldo.seconds == balance(entries, expected, default, day)
    &&& row.normalized_start_of_business.seconds == sob
    &&& row.normalized_end_of_business.seconds == (sob + actual) % (SECONDS_PER_DAY as int)
    &&& row.locations@ == joined(names_on(events, day))
}

/// Whether `rows` is the report over `[start, end]`: one row for each day
/// with activity in the range, in ascending order of date.
pub open spec fn is_timesheet(
    rows: Seq<TimeSheetRow>,
    entries: Seq<TimeEntry>,
    expected: Seq<ExpectedDuration>,
    events: Seq<Event>,
    default: Duration,
    start: Date,
    end: Date,
) -> bool {
    &&& dates_ascending(rows)
    &&& forall|i: int|
        0 <= i < rows.len() ==> {
            &&& start.day <= #[trigger] rows[i].date.day <= end.day
            &&& is_active(entries, rows[i].date.day as int)
            &&& row_matches(rows[i], entries, expected, events, default)
        }
    &&& forall|d: i64|
        start.day <= d <= end.day && is_active(entries, d as int) ==> #[trigger] has_row_on(
            rows,
            d,
        )
}

/// Whether every day with activity in `[start, end]` fits in durations.
pub open spec fn report_fits(
    entries: Seq<TimeEntry>,
    expected: Seq<ExpectedDuration>,
    default: Duration,
    start: Date,
    end: Date,
) -> bool {
    forall|d: int|
        start.day <= d <= end.day && #[trigger] is_active(entries, d) ==> day_fits(
            entries,
            expected,
            default,
            d,
        )
}

/// The worked seconds of a day and of all days up to it are bounded by the
/// number of entries times the longest span.
proof fn lemma_actual_bound(s: Seq<TimeEntry>, day: int)
    requires
        entries_wf(s),
    ensures
        -(s.len() as int) * 17_592_186_044_416 <= actual_seconds(s, day) <= (s.len() as int)
            * 17_592_186_044_416,
        -(s.len() as int) * 17_592_186_044_416 <= actual_through(s, day) <= (s.len() as int)
            * 17_592_186_044_416,
    decreases s.len(),
{
    if s.len() > 0 {
        assert(entries_wf(s.drop_last())) by {
            assert forall|i: int| 0 <= i < s.drop_last().len() implies #[trigger] s.drop_last()[i].wf() by {
                assert(s.drop_last()[i] == s[i]);
            }
        }
        lemma_actual_bound(s.drop_last(), day);
        assert(s.last().wf()) by {
            assert(s[s.len() - 1].wf());
        }
    }
}

/// Between two days with no entry starting strictly between them, the
/// running total grows by the worked seconds of the later day.
proof fn lemma_actual_through_step(s: Seq<TimeEntry>, prev: int, day: int)
    requires
        prev < day,
        forall|i: int|
            0 <= i < s.len() ==> !(prev < #[trigger] s[i].start.day_number() < day),
    ensures
        actual_through(s, day) == actual_through(s, prev) + actual_seconds(s, day),
    decreases s.len(),
{
    if s.len() > 0 {
        assert forall|i: int| 0 <= i < s.drop_last().len() implies !(prev
            < #[trigger] s.drop_last()[i].start.day_number() < day) by {
            assert(s.drop_last()[i] == s[i]);
        }
        lemma_actual_through_step(s.drop_last(), prev, day);
        assert(!(prev < s[s.len() - 1].start.day_number() < day));
    }
}

/// Before the first entry's day the running total is zero.
proof fn lemma_actual_through_before(s: Seq<TimeEntry>, day: int)
    requires
        forall|i: int| 0 <= i < s.len() ==> #[trigger] s[i].start.day_number() > day,
    ensures
        actual_through(s, day) == 0,
    decreases s.len(),
{
    if s.len() > 0 {
        assert forall|i: int| 0 <= i < s.drop_last().len() implies #[trigger] s.drop_last()[
            i
        ].start.day_number() > day by {
            assert(s.drop_last()[i] == s[i]);
        }
        lemma_actual_through_before(s.drop_last(), day);
        assert(s[s.len() - 1].start.day_number() > day);
    }
}

/// The first day is a day with activity, and no entry starts before it.
proof fn lemma_first_day(s: Seq<TimeEntry>)
    requires
        s.len() > 0,
    ensures
        is_active(s, first_day(s)),
        forall|i: int| 0 <= i < s.len() ==> first_day(s) <= #[trigger] s[i].start.day_number(),
    decreases s.len(),
{
    if s.len() == 1 {
        assert(s[0].start.day_number() == first_day(s));
    } else {
        lemma_first_day(s.drop_last());
        let p = first_day(s.drop_last());
        let j = choose|j: int|
            0 <= j < s.drop_last().len() && #[trigger] s.drop_last()[j].start.day_number() == p;
        assert(s.drop_last()[j] == s[j]);
        assert(s[s.len() - 1] == s.last());
        if s.last().start.day_number() < p {
            assert(s[s.len() - 1].start.day_number() == first_day(s));
        } else {
            assert(s[j].start.day_number() == first_day(s));
        }
        assert forall|i: int| 0 <= i < s.len() implies first_day(s) <= #[trigger] s[
            i
        ].start.day_number() by {
            if i < s.len() - 1 {
                assert(s.drop_last()[i] == s[i]);
            }
        }
    }
}

/// Between two days with no activity strictly between them, the running
/// expected total grows by the expected seconds of the later day, if active.
proof fn lemma_expected_through_step(
    entries: Seq<TimeEntry>,
    expected: Seq<ExpectedDuration>,
    default: Duration,
    prev: int,
    day: int,
)
    requires
        first_day(entries) <= prev < day,
        forall|d: int| prev < d < day ==> !#[trigger] is_active(entries, d),
    ensures
        expected_through(entries, expected, default, day) == expected_through(
            entries,
            expected,
            default,
            prev,
        ) + if is_active(entries, day) {
            expected_seconds(expected, default, day)
        } else {
            0
        },
    decreases day - prev,
{
    if day - 1 > prev {
        lemma_expected_through_step(entries, expected, default, prev, day - 1);
        assert(!is_active(entries, day - 1));
    }
}

/// The worked seconds of `day`.
fn actual_on(entries: &Vec<TimeEntry>, day: i64) -> (r: i128)
    requires
        entries_wf(entries@),
    ensures
        r == actual_seconds(entries@, day as int),
{
    let mut sum: i128 = 0;
    let n = entries.len();
    for i in 0..n
        invariant
            n == entries@.len(),
            entries_wf(entries@),
            sum == actual_seconds(entries@.subrange(0, i as int), day as int),
            -(i as int) * 17_592_186_044_416 <= sum <= (i as int) * 17_592_186_044_416,
    {
        let e = &entries[i];
        assert(e.wf());
        if e.start.date().day == day {
            match e.stop {
                Some(stop) => {
                    sum = sum + (stop.seconds as i128 - e.start.seconds as i128);
                },
                None => {},
            }
        }
        assert(entries@.subrange(0, i + 1).drop_last() =~= entries@.subrange(0, i as int));
    }
    assert(entries@.subrange(0, n as int) =~= entries@);
    sum
}

/// The expected seconds of `day`.
fn expected_on(expected: &Vec<ExpectedDuration>, default: Duration, day: i64) -> (r: i64)
    requires
        expected_wf(expected@),
        default.wf(),
    ensures
        r == expected_seconds(expected@, default, day as int),
        duration_fits(r as int),
{
    let mut i = expected.len();
    assert(expected@.subrange(0, i as int) =~= expected@);
    while i > 0
        invariant
            i <= expected@.len(),
            expected_wf(expected@),
            expected_seconds(expected@, default, day as int) == expected_seconds(
                expected@.subrange(0, i as int),
                default,
                day as int,
            ),
        decreases i,
    {
        assert(expected@.subrange(0, i as int).drop_last() =~= expected@.subrange(0, i - 1));
        if expected[i - 1].date.day == day {
            assert(expected@[i - 1].wf());
            return expected[i - 1].duration.seconds;
        }
        i = i - 1;
    }
    default.seconds
}

/// The earliest time of day at which an entry of `day` starts.
fn earliest_start_on(entries: &Vec<TimeEntry>, day: i64) -> (r: u32)
    ensures
        r == earliest_start(entries@, day as int),
        r <= SECONDS_PER_DAY,
        is_active(entries@, day as int) ==> r < SECONDS_PER_DAY,
{
    let mut m: u32 = 86_400;
    let n = entries.len();
    for i in 0..n
        invariant
            n == entries@.len(),
            m == earliest_start(entries@.subrange(0, i as int), day as int),
            m <= SECONDS_PER_DAY,
            (exists|j: int| 0 <= j < i && #[trigger] entries@[j].start.day_number() == day)
                ==> m < SECONDS_PER_DAY,
    {
        let e = &entries[i];
        if e.start.date().day == day {
            let t = e.start.time_of_day().seconds;
            if t < m {
                m = t;
            }
        }
        assert(entries@.subrange(0, i + 1).drop_last() =~= entries@.subrange(0, i as int));
    }
    assert(entries@.subrange(0, n as int) =~= entries@);
    m
}

/// The views of a list of texts.
pub open spec fn texts(v: Seq<String>) -> Seq<Seq<char>> {
    v.map_values(|s: String| s@)
}

/// Whether the list holds a text equal to `name`.
pub(crate) fn holds_text(names: &Vec<String>, name: &String) -> (r: bool)
    ensures
        r == texts(names@).contains(name@),
{
    let n = names.len();
    for i in 0..n
        invariant
            n == names@.len(),
            forall|j: int| 0 <= j < i ==> names@[j]@ != name@,
    {
        if names[i] == *name {
            assert(texts(names@)[i as int] == name@);
            return true;
        }
    }
    proof {
        if texts(names@).contains(name@) {
            let j = choose|j: int| 0 <= j < texts(names@).len() && texts(names@)[j] == name@;
            assert(names@[j]@ == name@);
        }
    }
    false
}

/// The locations of `day`: the distinct event names of that day, joined.
fn locations_on(events: &Vec<Event>, day: i64) -> (r: String)
    ensures
        r@ == joined(names_on(events@, day as int)),
{
    let mut names: Vec<String> = Vec::new();
    let n = events.len();
    for i in 0..n
        invariant
            n == events@.len(),
            texts(names@) == names_on(events@.subrange(0, i as int), day as int),
    {
        let e = &events[i];
        assert(events@.subrange(0, i + 1).drop_last() =~= events@.subrange(0, i as int));
        if e.time.date().day == day {
            if !holds_text(&names, &e.name) {
                names.push(e.name.clone());
                assert(texts(names@) =~= names_on(events@.subrange(0, i + 1), day as int));
            }
        }
    }
    assert(events@.subrange(0, n as int) =~= events@);
    let mut text = String::new();
    let m = names.len();
    for k in 0..m
        invariant
            m == names@.len(),
            text@ == joined(texts(names@).subrange(0, k as int)),
    {
        assert(texts(names@).subrange(0, k + 1).drop_last() =~= texts(names@).subrange(
            0,
            k as int,
        ));
        let ghost before = text@;
        if k > 0 {
            text.append(", ");
        }
        text.append(names[k].as_str());
        proof {
            let t = texts(names@).subrange(0, k + 1);
            assert(t.last() == names@[k as int]@);
            if k == 0 {
                assert(text@ =~= joined(t));
            } else {
                reveal_strlit(", ");
                assert(", "@ =~= seq![',', ' ']);
                assert(text@ =~= before + seq![',', ' '] + names@[k as int]@);
                assert(joined(t) == joined(t.drop_last()) + seq![',', ' '] + t.last());
                assert(text@ =~= joined(t));
            }
        }
    }
    assert(texts(names@).subrange(0, m as int) =~= texts(names@));
    text
}

/// Why a report could not be made.
#[derive(Clone, Copy, Debug, PartialEq, Eq, Structural)]
pub enum ReportError {
    /// A worked time, a delta or a balance of a reported day does not fit in
    /// a duration.
    DurationOverflow,
}

/// The report over `[start, end]`: for each day with activity in the range,
/// in ascending order, its worked and expected time, their difference, the
/// balance over all days up to it, its normalized business hours and the
/// places of its events. `default` is the expected duration of the days
/// without a stored one.
pub fn view_timesheet(
    entries: &Vec<TimeEntry>,
    expected: &Vec<ExpectedDuration>,
    events: &Vec<Event>,
    default: Duration,
    start: Date,
    end: Date,
) -> (r: Result<Vec<TimeSheetRow>, ReportError>)
    requires
        entries_wf(entries@),
        expected_wf(expected@),
        default.wf(),
    ensures
        r is Ok <==> report_fits(entries@, expected@, default, start, end),
        r matches Ok(rows) ==> is_timesheet(
            rows@,
            entries@,
            expected@,
            events@,
            default,
            start,
            end,
        ),
        r matches Err(e) ==> e == ReportError::DurationOverflow,
{
    let days = active_days(entries);
    let mut rows: Vec<TimeSheetRow> = Vec::new();
    let mut worked: i128 = 0;
    let mut planned: i128 = 0;
    let nd = days.len();
    let ne = entries.len();
    for k in 0..nd
        invariant
            nd == days@.len(),
            ne == entries@.len(),
            entries_wf(entries@),
            expected_wf(expected@),
            default.wf(),
            strictly_ascending(days@),
            forall|q: int| 0 <= q < days@.len() ==> is_active(entries@, #[trigger] days@[q] as int),
            forall|d: int| is_active(entries@, d) ==> holds_day(days@, d),
            k == 0 ==> worked == 0 && planned == 0,
            k > 0 ==> worked == actual_through(entries@, days@[k - 1] as int),
            k > 0 ==> planned == expected_through(
                entries@,
                expected@,
                default,
                days@[k - 1] as int,
            ),
            -(k as int) * 9_223_372_036_854_775 <= planned <= (k as int) * 9_223_372_036_854_775,
            dates_ascending(rows@),
            forall|i: int|
                0 <= i < rows@.len() ==> {
                    &&& start.day <= #[trigger] rows@[i].date.day <= end.day
                    &&& is_active(entries@, rows@[i].date.day as int)
                    &&& row_matches(rows@[i], entries@, expected@, events@, default)
                },
            forall|i: int|
                0 <= i < rows@.len() ==> exists|q: int|
                    0 <= q < k && #[trigger] rows@[i].date.day == days@[q],
            forall|q: int|
                0 <= q < k && start.day <= #[trigger] days@[q] <= end.day ==> has_row_on(
                    rows@,
                    days@[q],
                ) && day_fits(entries@, expected@, default, days@[q] as int),
    {
        let d = days[k];
        let actual = actual_on(entries, d);
        let planned_d = expected_on(expected, default, d);
        proof {
            lemma_actual_bound(entries@, d as int);
            assert(is_active(entries@, d as int));
            lemma_first_day(entries@);
            let fd = first_day(entries@);
            if k == 0 {
                assert(holds_day(days@, fd));
                let m = choose|m: int| 0 <= m < days@.len() && days@[m] == fd;
                if m > 0 {
                    assert(days@[0] < days@[m]);
                }
                let w = choose|w: int|
                    0 <= w < entries@.len() && #[trigger] entries@[w].start.day_number() == d;
                assert(fd <= entries@[w].start.day_number());
                assert(d == fd);
                lemma_actual_through_before(entries@, d - 1);
                lemma_actual_through_step(entries@, d - 1, d as int);
                assert(expected_through(entries@, expected@, default, d - 1) == 0);
            } else {
                let prev = days@[k - 1] as int;
                assert(prev < d);
                assert forall|x: int| prev < x < d implies !#[trigger] is_active(entries@, x) by {
                    if is_active(entries@, x) {
                        let m = choose|m: int| 0 <= m < days@.len() && days@[m] == x;
                        if m <= k - 1 {
                            if m < k - 1 {
                                assert(days@[m] < days@[k - 1]);
                            }
                        } else if m >= k {
                            if m > k {
                                assert(days@[k as int] < days@[m]);
                            }
                        }
                    }
                }
                assert forall|i: int| 0 <= i < entries@.len() implies !(prev
                    < #[trigger] entries@[i].start.day_number() < d) by {
                    let x = entries@[i].start.day_number();
                    if prev < x < d {
                        assert(is_active(entries@, x));
                    }
                }
                assert(is_active(entries@, prev));
                let w = choose|w: int|
                    0 <= w < entries@.len() && #[trigger] entries@[w].start.day_number() == prev;
                assert(fd <= entries@[w].start.day_number());
                lemma_actual_through_step(entries@, prev, d as int);
                lemma_expected_through_step(entries@, expected@, default, prev, d as int);
            }
        }
        worked = worked + actual;
        planned = planned + planned_d as i128;
        let ghost old_rows = rows@;
        if start.day <= d && d <= end.day {
            let delta = actual - planned_d as i128;
            let saldo = worked - planned;
            if !(-9_223_372_036_854_775 <= actual && actual <= 9_223_372_036_854_775
                && -9_223_372_036_854_775 <= delta && delta <= 9_223_372_036_854_775
                && -9_223_372_036_854_775 <= saldo && saldo <= 9_223_372_036_854_775) {
                proof {
                    assert(!day_fits(entries@, expected@, default, d as int));
                    assert(!report_fits(entries@, expected@, default, start, end));
                }
                return Err(ReportError::DurationOverflow);
            }
            let sob = earliest_start_on(entries, d);
            let eob = match (sob as i128 + actual).checked_rem_euclid(86_400) {
                Some(x) => x as u32,
                None => 0,
            };
            let row = TimeSheetRow {
                date: Date { day: d },
                actual_duration: Duration { seconds: actual as i64 },
                expected_duration: Duration { seconds: planned_d },
                delta: Duration { seconds: delta as i64 },
                saldo: Duration { seconds: saldo as i64 },
                normalized_start_of_business: TimeOfDay { seconds: sob },
                normalized_end_of_business: TimeOfDay { seconds: eob },
                locations: locations_on(events, d),
            };
            rows.push(row);
            proof {
                assert(row_matches(rows@.last(), entries@, expected@, events@, default));
                assert forall|i: int, j: int| 0 <= i < j < rows@.len() implies rows@[i].date.day
                    < rows@[j].date.day by {
                    if j == rows@.len() - 1 {
                        assert(rows@[i] == old_rows[i]);
                        let q = choose|q: int| 0 <= q < k && #[trigger] old_rows[i].date.day == days@[q];
                        assert(days@[q] < days@[k as int]);
                    } else {
                        assert(rows@[i] == old_rows[i]);
                        assert(rows@[j] == old_rows[j]);
                    }
                }
                assert forall|i: int| 0 <= i < rows@.len() implies exists|q: int|
                    0 <= q < k + 1 && #[trigger] rows@[i].date.day == days@[q] by {
                    if i == rows@.len() - 1 {
                        assert(rows@[i].date.day == days@[k as int]);
                    } else {
                        assert(rows@[i] == old_rows[i]);
                        let q = choose|q: int| 0 <= q < k && #[trigger] old_rows[i].date.day == days@[q];
                        assert(rows@[i].date.day == days@[q]);
                    }
                }
                assert forall|q: int|
                    0 <= q < k + 1 && start.day <= #[trigger] days@[q] <= end.day implies has_row_on(
                    rows@,
                    days@[q],
                ) && day_fits(entries@, expected@, default, days@[q] as int) by {
                    if q < k {
                        let i = choose|i: int| 0 <= i < old_rows.len() && old_rows[i].date.day == days@[q];
                        assert(rows@[i] == old_rows[i]);
                    } else {
                        assert(rows@[rows@.len() - 1].date.day == days@[q]);
                    }
                }
            }
        } else {
            proof {
                assert forall|i: int| 0 <= i < rows@.len() implies exists|q: int|
                    0 <= q < k + 1 && #[trigger] rows@[i].date.day == days@[q] by {
                    let q = choose|q: int| 0 <= q < k && #[trigger] rows@[i].date.day == days@[q];
                    assert(rows@[i].date.day == days@[q]);
                }
            }
        }
    }
    proof {
        assert forall|d: int|
            start.day <= d <= end.day && #[trigger] is_active(entries@, d) implies day_fits(
            entries@,
            expected@,
            default,
            d,
        ) by {
            let m = choose|m: int| 0 <= m < days@.len() && days@[m] == d;
            assert(start.day <= days@[m] <= end.day);
        }
        assert forall|d: i64|
            start.day <= d <= end.day && is_active(entries@, d as int) implies #[trigger] has_row_on(
            rows@,
            d,
        ) by {
            let m = choose|m: int| 0 <= m < days@.len() && days@[m] == d as int;
            assert(start.day <= days@[m] <= end.day);
        }
    }
    Ok(rows)
}

/// Whether the sequence of day numbers holds `day`.
pub open spec fn holds_day(days: Seq<i64>, day: int) -> bool {
    exists|k: int| 0 <= k < days.len() && days[k] == day
}

/// Whether the day numbers are strictly ascending.
pub open spec fn strictly_ascending(days: Seq<i64>) -> bool {
    forall|a: int, b: int| 0 <= a < b < days.len() ==> days[a] < days[b]
}

/// The days with activity, in ascending order, each once.
pub(crate) fn active_days(entries: &Vec<TimeEntry>) -> (r: Vec<i64>)
    ensures
        strictly_ascending(r@),
        forall|k: int| 0 <= k < r@.len() ==> is_active(entries@, #[trigger] r@[k] as int),
        forall|d: int| is_active(entries@, d) ==> holds_day(r@, d),
{
    let mut days: Vec<i64> = Vec::new();
    let n = entries.len();
    for i in 0..n
        invariant
            n == entries@.len(),
            strictly_ascending(days@),
            forall|k: int| 0 <= k < days@.len() ==> is_active(entries@, #[trigger] days@[k] as int),
            forall|j: int|
                0 <= j < i ==> holds_day(days@, #[trigger] entries@[j].start.day_number()),
    {
        let d = entries[i].start.date().day;
        let mut p: usize = 0;
        while p < days.len() && days[p] < d
            invariant
                p <= days@.len(),
                forall|q: int| 0 <= q < p ==> days@[q] < d,
            decreases days@.len() - p,
        {
            p = p + 1;
        }
        assert(is_active(entries@, d as int)) by {
            assert(entries@[i as int].start.day_number() == d);
        }
        if p < days.len() && days[p] == d {
        } else {
            let ghost old_days = days@;
            days.insert(p, d);
            proof {
                old_days.insert_ensures(p as int, d);
                assert forall|a: int, b: int| 0 <= a < b < days@.len() implies days@[a]
                    < days@[b] by {
                    if b < p {
                    } else if b == p {
                    } else if a < p {
                        assert(old_days[p as int] > d);
                        assert(days@[b] == old_days[b - 1]);
                        if b - 1 > p {
                            assert(old_days[p as int] < old_days[b - 1]);
                        }
                    } else if a == p {
                        assert(old_days[p as int] > d);
                        assert(days@[b] == old_days[b - 1]);
                        if b - 1 > p {
                            assert(old_days[p as int] < old_days[b - 1]);
                        }
                    } else {
                        assert(days@[a] == old_days[a - 1]);
                        assert(days@[b] == old_days[b - 1]);
                    }
                }
                assert forall|k: int| 0 <= k < days@.len() implies is_active(
                    entries@,
                    #[trigger] days@[k] as int,
                ) by {
                    if k < p {
                        assert(days@[k] == old_days[k]);
                    } else if k > p {
                        assert(days@[k] == old_days[k - 1]);
                    }
                }
                assert forall|j: int| 0 <= j < i implies holds_day(
                    days@,
                    #[trigger] entries@[j].start.day_number(),
                ) by {
                    let dj = entries@[j].start.day_number();
                    let k = choose|k: int| 0 <= k < old_days.len() && old_days[k] == dj;
                    if k < p {
                        assert(days@[k] == old_days[k]);
                    } else {
                        assert(days@[k + 1] == old_days[k]);
                    }
                }
            }
        }
        proof {
            assert(holds_day(days@, entries@[i as int].start.day_number())) by {
                assert(days@[p as int] == d);
            }
        }
    }
    proof {
        assert forall|d: int| is_active(entries@, d) implies holds_day(days@, d) by {
            let j = choose|j: int| 0 <= j < entries@.len() && #[trigger] entries@[j].start.day_number() == d;
            assert(holds_day(days@, entries@[j].start.day_number()));
        }
    }
    days
}

/// Whether the rows' dates are strictly ascending.
pub open spec fn dates_ascending(rows: Seq<TimeSheetRow>) -> bool {
    forall|i: int, j: int| 0 <= i < j < rows.len() ==> rows[i].date.day < rows[j].date.day
}

/// Whether some row of `rows` is dated `day`.
pub open spec fn has_row_on(rows: Seq<TimeSheetRow>, day: i64) -> bool {
    exists|i: int| 0 <= i < rows.len() && rows[i].date.day == day
}

/// Whether `filled` is `rows` made contiguous: one row for each date from the
/// first to the last row's date, the rows of `rows` copied unchanged, and an
/// empty row that carries the previous balance on every other date.
pub open spec fn is_gap_filled(rows: Seq<TimeSheetRow>, filled: Seq<TimeSheetRow>) -> bool {
    if rows.len() == 0 {
        filled.len() == 0
    } else {
        let first = rows[0].date.day as int;
        &&& filled.len() == rows.last().date.day - first + 1
        &&& forall|k: int| 0 <= k < filled.len() ==> #[trigger] filled[k].date.day == first + k
        &&& forall|i: int|
            0 <= i < rows.len() ==> filled[#[trigger] rows[i].date.day - first] == rows[i]
        &&& forall|k: int|
            0 <= k < filled.len() && !has_row_on(rows, #[trigger] filled[k].date.day) ==> k > 0
                && filled[k].is_empty_row(filled[k - 1].saldo)
    }
}

/// Makes date-ordered rows contiguous: every date from the first row's to
/// the last row's gets a row, an empty one that keeps the previous balance
/// where `rows` has none.
pub fn fill_gaps(rows: &Vec<TimeSheetRow>) -> (r: Vec<TimeSheetRow>)
    requires
        dates_ascending(rows@),
    ensures
        is_gap_filled(rows@, r@),
{
    let mut out: Vec<TimeSheetRow> = Vec::new();
    if rows.len() == 0 {
        return out;
    }
    let first = rows[0].date.day;
    let last = rows[rows.len() - 1].date.day;
    proof {
        assert(rows@[0].date.day <= rows@.last().date.day) by {
            if rows@.len() > 1 {
                assert(0 < rows@.len() - 1);
            }
        }
    }
    let n = rows.len();
    let mut index: usize = 0;
    let mut day: i128 = first as i128;
    while day <= last as i128
        invariant
            dates_ascending(rows@),
            rows@.len() > 0,
            n == rows@.len(),
            first == rows@[0].date.day,
            last == rows@.last().date.day,
            first <= day <= last + 1,
            out@.len() == day - first,
            index <= rows@.len(),
            forall|k: int| 0 <= k < out@.len() ==> #[trigger] out@[k].date.day == first + k,
            index < rows@.len() ==> rows@[index as int].date.day >= day,
            forall|i: int| 0 <= i < index ==> #[trigger] rows@[i].date.day < day,
            forall|i: int|
                0 <= i < index ==> out@[#[trigger] rows@[i].date.day - first] == rows@[i],
            forall|k: int|
                0 <= k < out@.len() && !has_row_on(rows@, #[trigger] out@[k].date.day) ==> k > 0
                    && out@[k].is_empty_row(out@[k - 1].saldo),
            day <= last ==> index < rows@.len(),
        decreases last - day + 1,
    {
        let ghost old_out = out@;
        if day < rows[index].date.day as i128 {
            assert(out@.len() > 0) by {
                if day == first {
                    assert(index == 0) by {
                        if index > 0 {
                            assert(rows@[0].date.day < day);
                        }
                    }
                }
            }
            let mut row = TimeSheetRow::empty(Date { day: day as i64 });
            row.saldo = out[out.len() - 1].saldo;
            out.push(row);
            proof {
                assert(!has_row_on(rows@, day as i64)) by {
                    if has_row_on(rows@, day as i64) {
                        let i = choose|i: int| 0 <= i < rows@.len() && rows@[i].date.day == day;
                        if i < index {
                        } else if i > index {
                            assert(rows@[index as int].date.day < rows@[i].date.day);
                        }
                    }
                }
                assert forall|k: int|
                    0 <= k < out@.len() && !has_row_on(rows@, #[trigger] out@[k].date.day)
                        implies k > 0 && out@[k].is_empty_row(out@[k - 1].saldo) by {
                    if k < old_out.len() {
                        assert(out@[k] == old_out[k]);
                    }
                }
            }
        } else {
            out.push(rows[index].duplicate());
            proof {
                assert forall|i: int| 0 <= i < index + 1 implies out@[#[trigger] rows@[i].date.day
                    - first] == rows@[i] by {
                    if i < index {
                        assert(out@[rows@[i].date.day - first] == old_out[rows@[i].date.day
                            - first]);
                    }
                }
                assert forall|k: int|
                    0 <= k < out@.len() && !has_row_on(rows@, #[trigger] out@[k].date.day)
                        implies k > 0 && out@[k].is_empty_row(out@[k - 1].saldo) by {
                    if k < old_out.len() {
                        assert(out@[k] == old_out[k]);
                    } else {
                        assert(rows@[index as int].date.day == out@[k].date.day);
                    }
                }
                if index + 1 < rows@.len() {
                    assert(rows@[index as int].date.day < rows@[index + 1].date.day);
                }
            }
            index = index + 1;
        }
        day = day + 1;
    }
    proof {
        if index < rows@.len() {
            if index < rows@.len() - 1 {
                assert(rows@[index as int].date.day < rows@.last().date.day);
            }
        }
    }
    out
}

/// Whether each row's balance is the previous row's balance plus its delta.
pub open spec fn saldo_chained(rows: Seq<TimeSheetRow>) -> bool {
    forall|k: int|
        1 <= k < rows.len() ==> #[trigger] rows[k].saldo.seconds == rows[k - 1].saldo.seconds
            + rows[k].delta.seconds
}

/// In a report, each row's balance is the previous row's balance plus its
/// delta: no day with activity lies between two consecutive rows.
proof fn lemma_timesheet_saldo_chained(
    rows: Seq<TimeSheetRow>,
    entries: Seq<TimeEntry>,
    expected: Seq<ExpectedDuration>,
    events: Seq<Event>,
    default: Duration,
    start: Date,
    end: Date,
)
    requires
        is_timesheet(rows, entries, expected, events, default, start, end),
    ensures
        saldo_chained(rows),
{
    assert forall|k: int| 1 <= k < rows.len() implies #[trigger] rows[k].saldo.seconds == rows[k
        - 1].saldo.seconds + rows[k].delta.seconds by {
        let d1 = rows[k - 1].date.day as int;
        let d2 = rows[k].date.day as int;
        assert(start.day <= rows[k - 1].date.day <= end.day);
        assert(start.day <= rows[k].date.day <= end.day);
        assert(row_matches(rows[k - 1], entries, expected, events, default));
        assert(row_matches(rows[k], entries, expected, events, default));
        assert(d1 < d2);
        assert forall|x: int| d1 < x < d2 implies !#[trigger] is_active(entries, x) by {
            if is_active(entries, x) {
                assert(has_row_on(rows, x as i64));
                let j = choose|j: int| 0 <= j < rows.len() && rows[j].date.day == x as i64;
                if j < k - 1 {
                    assert(rows[j].date.day < rows[k - 1].date.day);
                } else if j > k {
                    assert(rows[k].date.day < rows[j].date.day);
                }
            }
        }
        assert forall|i: int| 0 <= i < entries.len() implies !(d1
            < #[trigger] entries[i].start.day_number() < d2) by {
            let x = entries[i].start.day_number();
            if d1 < x < d2 {
                assert(is_active(entries, x));
            }
        }
        assert(is_active(entries, d1));
        lemma_first_day(entries);
        let w = choose|w: int|
            0 <= w < entries.len() && #[trigger] entries[w].start.day_number() == d1;
        assert(first_day(entries) <= entries[w].start.day_number());
        lemma_actual_through_step(entries, d1, d2);
        lemma_expected_through_step(entries, expected, default, d1, d2);
        assert(is_active(entries, d2));
    }
}

/// In a gap-filled sequence, the rows strictly between two consecutive rows
/// of the original carry the earlier one's balance.
proof fn lemma_carried_saldo(rows: Seq<TimeSheetRow>, filled: Seq<TimeSheetRow>, i: int, p: int)
    requires
        dates_ascending(rows),
        is_gap_filled(rows, filled),
        1 <= i < rows.len(),
        rows[i - 1].date.day - rows[0].date.day <= p < rows[i].date.day - rows[0].date.day,
    ensures
        filled[p].saldo == rows[i - 1].saldo,
    decreases p - (rows[i - 1].date.day - rows[0].date.day),
{
    let first = rows[0].date.day as int;
    if i - 1 > 0 {
        assert(rows[0].date.day < rows[i - 1].date.day);
    }
    if rows[i - 1].date.day < rows[rows.len() - 1].date.day {
        assert(rows[rows.len() - 1].date.day == rows.last().date.day);
    }
    if i < rows.len() - 1 {
        assert(rows[i].date.day < rows[rows.len() - 1].date.day);
    }
    if p == rows[i - 1].date.day - first {
        assert(filled[rows[i - 1].date.day - first] == rows[i - 1]);
    } else {
        lemma_carried_saldo(rows, filled, i, p - 1);
        assert(filled[p].date.day == first + p);
        assert(!has_row_on(rows, filled[p].date.day)) by {
            if has_row_on(rows, filled[p].date.day) {
                let j = choose|j: int| 0 <= j < rows.len() && rows[j].date.day == filled[p].date.day;
                if j < i - 1 {
                    assert(rows[j].date.day < rows[i - 1].date.day);
                } else if j > i {
                    assert(rows[i].date.day < rows[j].date.day);
                }
            }
        }
    }
}

/// Gap filling keeps a chained balance chained: an inserted row has a zero
/// delta and carries the previous balance.
proof fn lemma_gap_filled_saldo_chained(rows: Seq<TimeSheetRow>, filled: Seq<TimeSheetRow>)
    requires
        dates_ascending(rows),
        is_gap_filled(rows, filled),
        saldo_chained(rows),
    ensures
        saldo_chained(filled),
{
    if rows.len() > 0 {
        let first = rows[0].date.day as int;
        assert forall|k: int| 1 <= k < filled.len() implies #[trigger] filled[k].saldo.seconds
            == filled[k - 1].saldo.seconds + filled[k].delta.seconds by {
            assert(filled[k].date.day == first + k);
            if has_row_on(rows, filled[k].date.day) {
                let i = choose|i: int| 0 <= i < rows.len() && rows[i].date.day == filled[k].date.day;
                assert(filled[rows[i].date.day - first] == rows[i]);
                assert(i != 0);
                lemma_carried_saldo(rows, filled, i, k - 1);
                assert(rows[i].saldo.seconds == rows[i - 1].saldo.seconds + rows[i].delta.seconds);
            }
        }
    }
}

/// Whether `rows` is the report over `[start, end]` made contiguous: its
/// dates run without a gap from a first to a last day with activity in the
/// range; a day with activity has its report row, any other day an empty row
/// that carries the previous balance.
pub open spec fn is_full_timesheet(
    rows: Seq<TimeSheetRow>,
    entries: Seq<TimeEntry>,
    expected: Seq<ExpectedDuration>,
    events: Seq<Event>,
    default: Duration,
    start: Date,
    end: Date,
) -> bool {
    &&& forall|k: int| 0 <= k < rows.len() ==> #[trigger] rows[k].date.day == rows[0].date.day + k
    &&& forall|k: int|
        0 <= k < rows.len() ==> {
            &&& start.day <= #[trigger] rows[k].date.day <= end.day
            &&& if is_active(entries, rows[k].date.day as int) {
                row_matches(rows[k], entries, expected, events, default)
            } else {
                k > 0 && rows[k].is_empty_row(rows[k - 1].saldo)
            }
        }
    &&& forall|d: i64|
        start.day <= d <= end.day && is_active(entries, d as int) ==> #[trigger] has_row_on(
            rows,
            d,
        )
    &&& rows.len() > 0 ==> is_active(entries, rows[0].date.day as int) && is_active(
        entries,
        rows.last().date.day as int,
    )
}

/// Filling the gaps of a report gives the contiguous report.
proof fn lemma_full_timesheet(
    compact: Seq<TimeSheetRow>,
    filled: Seq<TimeSheetRow>,
    entries: Seq<TimeEntry>,
    expected: Seq<ExpectedDuration>,
    events: Seq<Event>,
    default: Duration,
    start: Date,
    end: Date,
)
    requires
        is_timesheet(compact, entries, expected, events, default, start, end),
        is_gap_filled(compact, filled),
    ensures
        is_full_timesheet(filled, entries, expected, events, default, start, end),
{
    if compact.len() > 0 {
        let first = compact[0].date.day as int;
        assert(start.day <= compact[0].date.day <= end.day);
        assert(start.day <= compact[compact.len() - 1].date.day <= end.day);
        assert(filled[0].date.day == first);
        assert forall|k: int| 0 <= k < filled.len() implies {
            &&& start.day <= #[trigger] filled[k].date.day <= end.day
            &&& if is_active(entries, filled[k].date.day as int) {
                row_matches(filled[k], entries, expected, events, default)
            } else {
                k > 0 && filled[k].is_empty_row(filled[k - 1].saldo)
            }
        } by {
            assert(filled[k].date.day == first + k);
            if is_active(entries, filled[k].date.day as int) {
                assert(has_row_on(compact, filled[k].date.day));
                let i = choose|i: int|
                    0 <= i < compact.len() && compact[i].date.day == filled[k].date.day;
                assert(filled[compact[i].date.day - first] == compact[i]);
            } else if has_row_on(compact, filled[k].date.day) {
                let i = choose|i: int|
                    0 <= i < compact.len() && compact[i].date.day == filled[k].date.day;
                assert(is_active(entries, compact[i].date.day as int));
            }
        }
        assert forall|d: i64|
            start.day <= d <= end.day && is_active(entries, d as int) implies #[trigger] has_row_on(
            filled,
            d,
        ) by {
            assert(has_row_on(compact, d));
            let i = choose|i: int| 0 <= i < compact.len() && compact[i].date.day == d;
            assert(filled[compact[i].date.day - first] == compact[i]);
        }
        assert(filled[compact[0].date.day - first] == compact[0]);
        assert(filled[compact[compact.len() - 1].date.day - first] == compact[compact.len() - 1]);
        assert(compact[compact.len() - 1] == compact.last());
        assert(filled[filled.len() - 1] == filled.last());
        assert(is_active(entries, compact[0].date.day as int));
        assert(is_active(entries, compact[compact.len() - 1].date.day as int));
    } else {
        assert forall|d: i64|
            start.day <= d <= end.day && is_active(entries, d as int) implies #[trigger] has_row_on(
            filled,
            d,
        ) by {
            assert(has_row_on(compact, d));
        }
    }
}

/// The report over `[start, end]` made contiguous: every date from the first
/// reported day to the last one has a row, an empty one that keeps the
/// previous balance on a day without activity.
pub fn view_full_timesheet(
    entries: &Vec<TimeEntry>,
    expected: &Vec<ExpectedDuration>,
    events: &Vec<Event>,
    default: Duration,
    start: Date,
    end: Date,
) -> (r: Result<Vec<TimeSheetRow>, ReportError>)
    requires
        entries_wf(entries@),
        expected_wf(expected@),
        default.wf(),
    ensures
        r is Ok <==> report_fits(entries@, expected@, default, start, end),
        r matches Ok(rows) ==> is_full_timesheet(
            rows@,
            entries@,
            expected@,
            events@,
            default,
            start,
            end,
        ),
        r matches Ok(rows) ==> saldo_chained(rows@),
        r matches Err(e) ==> e == ReportError::DurationOverflow,
{
    match view_timesheet(entries, expected, events, default, start, end) {
        Ok(compact) => {
            let filled = fill_gaps(&compact);
            proof {
                lemma_timesheet_saldo_chained(
                    compact@,
                    entries@,
                    expected@,
                    events@,
                    default,
                    start,
                    end,
                );
                lemma_gap_filled_saldo_chained(compact@, filled@);
                lemma_full_timesheet(
                    compact@,
                    filled@,
                    entries@,
                    expected@,
                    events@,
                    default,
                    start,
                    end,
                );
            }
            Ok(filled)
        },
        Err(e) => Err(e),
    }
}

} // verus!
