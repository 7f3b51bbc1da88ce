//! The store of events, time entries and expected durations: each kind of
//! record is kept once per natural key, and writing a record whose key is
//! already stored replaces the stored one in place.

use vstd::prelude::*;

use crate::calendar::{Date, Timestamp};
use crate::duration::Duration;
use crate::models::{Event, ExpectedDuration, TimeEntry, TimeSheetRow};
use crate::report::{
    active_days, entries_wf, expected_wf, holds_day, is_active, is_full_timesheet, is_timesheet,
    holds_text, report_fits, saldo_chained, texts, view_full_timesheet, view_timesheet, ReportError,
};

verus! {

/// Whether two events share their natural key: the same name on the same date.
pub open spec fn same_event_key(a: Event, b: Event) -> bool {
    a.time.day_number() == b.time.day_number() && a.name@ == b.name@
}

/// Whether no two events share a key.
pub open spec fn events_unique(s: Seq<Event>) -> bool {
    forall|i: int, j: int|
        0 <= i < s.len() && 0 <= j < s.len() && i != j ==> !same_event_key(s[i], s[j])
}

/// Whether no two time entries share an id.
pub open spec fn entries_unique(s: Seq<TimeEntry>) -> bool {
    forall|i: int, j: int| 0 <= i < s.len() && 0 <= j < s.len() && i != j ==> s[i].id != s[j].id
}

/// Whether no two expected durations share a date.
pub open spec fn expected_unique(s: Seq<ExpectedDuration>) -> bool {
    forall|i: int, j: int|
        0 <= i < s.len() && 0 <= j < s.len() && i != j ==> s[i].date != s[j].date
}

/// Whether some stored expected duration is dated `day`.
pub open spec fn has_expected(s: Seq<ExpectedDuration>, day: int) -> bool {
    exists|i: int| 0 <= i < s.len() && #[trigger] s[i].date.day == day
}

/// `s` after writing the event `e`: it replaces the stored event with its
/// key, or is appended when there is none.
pub open spec fn upsert_event(s: Seq<Event>, e: Event) -> Seq<Event> {
    if exists|i: int| 0 <= i < s.len() && same_event_key(#[trigger] s[i], e) {
        s.update(choose|i: int| 0 <= i < s.len() && same_event_key(#[trigger] s[i], e), e)
    } else {
        s.push(e)
    }
}

/// `s` after writing the events of `new`, one after the other.
pub open spec fn upsert_events(s: Seq<Event>, new: Seq<Event>) -> Seq<Event>
    decreases new.len(),
{
    if new.len() == 0 {
        s
    } else {
        upsert_event(upsert_events(s, new.drop_last()), new.last())
    }
}

/// `s` after writing the time entry `e`: it replaces the stored entry with
/// its id, or is appended when there is none.
pub open spec fn upsert_entry(s: Seq<TimeEntry>, e: TimeEntry) -> Seq<TimeEntry> {
    if exists|i: int| 0 <= i < s.len() && #[trigger] s[i].id == e.id {
        s.update(choose|i: int| 0 <= i < s.len() && #[trigger] s[i].id == e.id, e)
    } else {
        s.push(e)
    }
}

/// `s` after writing the time entries of `new`, one after the other.
pub open spec fn upsert_entries(s: Seq<TimeEntry>, new: Seq<TimeEntry>) -> Seq<TimeEntry>
    decreases new.len(),
{
    if new.len() == 0 {
        s
    } else {
        upsert_entry(upsert_entries(s, new.drop_last()), new.last())
    }
}

/// `s` after writing the expected duration `e`: it replaces the stored one of
/// its date, or is appended when there is none.
pub open spec fn upsert_expected(s: Seq<ExpectedDuration>, e: ExpectedDuration) -> Seq<
    ExpectedDuration,
> {
    if exists|i: int| 0 <= i < s.len() && #[trigger] s[i].date == e.date {
        s.update(choose|i: int| 0 <= i < s.len() && #[trigger] s[i].date == e.date, e)
    } else {
        s.push(e)
    }
}

/// The stored events dated `day`, in order.
pub open spec fn events_on(s: Seq<Event>, day: int) -> Seq<Event>
    decreases s.len(),
{
    if s.len() == 0 {
        seq![]
    } else if s.last().time.day_number() == day {
        events_on(s.drop_last(), day).push(s.last())
    } else {
        events_on(s.drop_last(), day)
    }
}

/// The names of the events, each once, in the order of first occurrence.
pub open spec fn distinct_names(s: Seq<Event>) -> Seq<Seq<char>>
    decreases s.len(),
{
    if s.len() == 0 {
        seq![]
    } else {
        let prev = distinct_names(s.drop_last());
        if prev.contains(s.last().name@) {
            prev
        } else {
            prev.push(s.last().name@)
        }
    }
}

/// The store of one person's records.
pub struct TimeStore {
    pub events: Vec<Event>,
    pub time_entries: Vec<TimeEntry>,
    pub expected_durations: Vec<ExpectedDuration>,
}

/// Writing one event keeps the events well formed and unique.
proof fn lemma_upsert_event_unique(s: Seq<Event>, e: Event)
    requires
        events_unique(s),
    ensures
        events_unique(upsert_event(s, e)),
{
    let r = upsert_event(s, e);
    if exists|i: int| 0 <= i < s.len() && same_event_key(#[trigger] s[i], e) {
        let c = choose|i: int| 0 <= i < s.len() && same_event_key(#[trigger] s[i], e);
        assert forall|i: int, j: int|
            0 <= i < r.len() && 0 <= j < r.len() && i != j implies !same_event_key(r[i], r[j]) by {
            if i == c {
                assert(!same_event_key(s[c], s[j]));
            } else if j == c {
                assert(!same_event_key(s[i], s[c]));
            } else {
                assert(!same_event_key(s[i], s[j]));
            }
        }
    } else {
        assert forall|i: int, j: int|
            0 <= i < r.len() && 0 <= j < r.len() && i != j implies !same_event_key(r[i], r[j]) by {
            if i == s.len() {
                assert(!same_event_key(s[j], e));
            } else if j == s.len() {
                assert(!same_event_key(s[i], e));
            } else {
                assert(!same_event_key(s[i], s[j]));
            }
        }
    }
}

/// Writing one time entry keeps the ids unique.
proof fn lemma_upsert_entry_unique(s: Seq<TimeEntry>, e: TimeEntry)
    requires
        entries_unique(s),
    ensures
        entries_unique(upsert_entry(s, e)),
{
    let r = upsert_entry(s, e);
    if exists|i: int| 0 <= i < s.len() && #[trigger] s[i].id == e.id {
        let c = choose|i: int| 0 <= i < s.len() && #[trigger] s[i].id == e.id;
        assert forall|i: int, j: int|
            0 <= i < r.len() && 0 <= j < r.len() && i != j implies r[i].id != r[j].id by {
            if i == c {
                assert(s[c].id != s[j].id);
            } else if j == c {
                assert(s[i].id != s[c].id);
            } else {
                assert(s[i].id != s[j].id);
            }
        }
    } else {
        assert forall|i: int, j: int|
            0 <= i < r.len() && 0 <= j < r.len() && i != j implies r[i].id != r[j].id by {
            if i == s.len() {
                assert(s[j].id != e.id);
            } else if j == s.len() {
                assert(s[i].id != e.id);
            } else {
                assert(s[i].id != s[j].id);
            }
        }
    }
}

/// Writing one expected duration keeps the dates unique.
proof fn lemma_upsert_expected_unique(s: Seq<ExpectedDuration>, e: ExpectedDuration)
    requires
        expected_unique(s),
    ensures
        expected_unique(upsert_expected(s, e)),
{
    let r = upsert_expected(s, e);
    if exists|i: int| 0 <= i < s.len() && #[trigger] s[i].date == e.date {
        let c = choose|i: int| 0 <= i < s.len() && #[trigger] s[i].date == e.date;
        assert forall|i: int, j: int|
            0 <= i < r.len() && 0 <= j < r.len() && i != j implies r[i].date != r[j].date by {
            if i == c {
                assert(s[c].date != s[j].date);
            } else if j == c {
                assert(s[i].date != s[c].date);
            } else {
                assert(s[i].date != s[j].date);
            }
        }
    } else {
        assert forall|i: int, j: int|
            0 <= i < r.len() && 0 <= j < r.len() && i != j implies r[i].date != r[j].date by {
            if i == s.len() {
                assert(s[j].date != e.date);
            } else if j == s.len() {
                assert(s[i].date != e.date);
            } else {
                assert(s[i].date != s[j].date);
            }
        }
    }
}

/// Writing again the events that the store holds, in the order in which it
/// lists them, leaves the store's events as they were: re-importing an
/// unmodified export changes nothing.
pub proof fn lemma_reimport_idempotent(stored: Seq<Event>)
    requires
        events_unique(stored),
    ensures
        upsert_events(stored, stored) == stored,
{
    lemma_reimport_prefix(stored, stored.len() as int);
    assert(stored.subrange(0, stored.len() as int) =~= stored);
}

/// Writing any prefix of the stored events leaves them as they were.
proof fn lemma_reimport_prefix(stored: Seq<Event>, k: int)
    requires
        events_unique(stored),
        0 <= k <= stored.len(),
    ensures
        upsert_events(stored, stored.subrange(0, k)) == stored,
    decreases k,
{
    if k > 0 {
        lemma_reimport_prefix(stored, k - 1);
        assert(stored.subrange(0, k).drop_last() =~= stored.subrange(0, k - 1));
        let e = stored[k - 1];
        assert(same_event_key(stored[k - 1], e));
        let c = choose|i: int| 0 <= i < stored.len() && same_event_key(#[trigger] stored[i], e);
        if c != k - 1 {
            assert(!same_event_key(stored[c], stored[k - 1]));
        }
        assert(stored.update(k - 1, e) =~= stored);
    }
}

/// Writing a time entry whose id is already stored overwrites the stored
/// entry with all of its fields: the number of entries stays the same, the
/// id is held by exactly one entry, that entry is the new one, and every
/// other entry is unchanged.
pub proof fn lemma_upsert_overwrites(stored: Seq<TimeEntry>, e: TimeEntry, i: int)
    requires
        entries_unique(stored),
        0 <= i < stored.len(),
        stored[i].id == e.id,
    ensures
        upsert_entry(stored, e).len() == stored.len(),
        upsert_entry(stored, e)[i] == e,
        forall|j: int| 0 <= j < stored.len() && j != i ==> #[trigger] upsert_entry(stored, e)[j] == stored[j],
        forall|j: int|
            0 <= j < stored.len() && #[trigger] upsert_entry(stored, e)[j].id == e.id ==> j == i,
{
    let c = choose|c: int| 0 <= c < stored.len() && #[trigger] stored[c].id == e.id;
    if c != i {
        assert(stored[c].id != stored[i].id);
    }
    lemma_upsert_entry_unique(stored, e);
}

impl TimeStore {
    /// Whether every record is well formed and unique by its key.
    pub open spec fn wf(&self) -> bool {
        &&& forall|i: int| 0 <= i < self.events@.len() ==> (#[trigger] self.events@[i]).wf()
        &&& events_unique(self.events@)
        &&& entries_wf(self.time_entries@)
        &&& entries_unique(self.time_entries@)
        &&& expected_wf(self.expected_durations@)
        &&& expected_unique(self.expected_durations@)
    }

    /// An empty store.
    pub fn new() -> (r: TimeStore)
        ensures
            r.wf(),
            r.events@.len() == 0,
            r.time_entries@.len() == 0,
            r.expected_durations@.len() == 0,
    {
        TimeStore { events: Vec::new(), time_entries: Vec::new(), expected_durations: Vec::new() }
    }

    /// Writes an event, replacing the stored one with the same name on the
    /// same date.
    pub fn insert_event(&mut self, event: &Event)
        requires
            old(self).wf(),
            event.wf(),
        ensures
            final(self).wf(),
            final(self).events@ == upsert_event(old(self).events@, *event),
            final(self).time_entries@ == old(self).time_entries@,
            final(self).expected_durations@ == old(self).expected_durations@,
    {
        let n = self.events.len();
        let day = event.time.date().day;
        let mut i: usize = 0;
        while i < n
            invariant
                n == self.events@.len(),
                *self == *old(self),
                old(self).wf(),
                event.wf(),
                day == event.time.day_number(),
                forall|j: int| 0 <= j < i ==> !same_event_key(#[trigger] self.events@[j], *event),
            decreases n - i,
        {
            if self.events[i].time.date().day == day && self.events[i].name == event.name {
                let ghost s = self.events@;
                self.events.set(i, event.duplicate());
                proof {
                    let c = choose|c: int| 0 <= c < s.len() && same_event_key(#[trigger] s[c], *event);
                    if c != i {
                        assert(same_event_key(s[c], s[i as int]));
                    }
                    assert(self.events@ =~= upsert_event(s, *event));
                    lemma_upsert_event_unique(s, *event);
                    assert(forall|j: int| 0 <= j < s.len() ==> (#[trigger] s[j]).wf());
                    assert(events_unique(self.events@));
                    assert forall|j: int| 0 <= j < self.events@.len() implies (
                    #[trigger] self.events@[j]).wf() by {
                        if j != i {
                            assert(self.events@[j] == s[j]);
                        }
                    }
                }
                return;
            }
            i = i + 1;
        }
        let ghost s = self.events@;
        self.events.push(event.duplicate());
        proof {
            assert(!exists|c: int| 0 <= c < s.len() && same_event_key(#[trigger] s[c], *event));
            lemma_upsert_event_unique(s, *event);
        }
    }

    /// Writes events one after the other, each replacing the stored event
    /// with the same name on the same date.
    pub fn insert_events(&mut self, events: &Vec<Event>)
        requires
            old(self).wf(),
            forall|i: int| 0 <= i < events@.len() ==> (#[trigger] events@[i]).wf(),
        ensures
            final(self).wf(),
            final(self).events@ == upsert_events(old(self).events@, events@),
            final(self).time_entries@ == old(self).time_entries@,
            final(self).expected_durations@ == old(self).expected_durations@,
    {
        let n = events.len();
        for i in 0..n
            invariant
                n == events@.len(),
                self.wf(),
                forall|j: int| 0 <= j < events@.len() ==> (#[trigger] events@[j]).wf(),
                self.events@ == upsert_events(old(self).events@, events@.subrange(0, i as int)),
                self.time_entries@ == old(self).time_entries@,
                self.expected_durations@ == old(self).expected_durations@,
        {
            self.insert_event(&events[i]);
            assert(events@.subrange(0, i + 1).drop_last() =~= events@.subrange(0, i as int));
        }
        assert(events@.subrange(0, n as int) =~= events@);
    }

    /// Writes an event named `name` at the instant `now`, the current one.
    pub fn insert_current_event(&mut self, name: &String, now: Timestamp)
        requires
            old(self).wf(),
            now.wf(),
        ensures
            final(self).wf(),
            final(self).events@ == upsert_events(
                old(self).events@,
                seq![Event { time: now, name: *name }],
            ),
            final(self).time_entries@ == old(self).time_entries@,
            final(self).expected_durations@ == old(self).expected_durations@,
    {
        let event = Event { time: now, name: name.clone() };
        self.insert_event(&event);
        proof {
            let one = seq![event];
            assert(one.drop_last() =~= Seq::<Event>::empty());
            assert(one.last() == event);
            assert(upsert_events(old(self).events@, one.drop_last()) == old(self).events@);
            assert(self.events@ == upsert_events(old(self).events@, one));
        }
    }

    /// Writes a time entry, replacing the stored one with the same id.
    pub fn insert_time_entry(&mut self, time_entry: &TimeEntry)
        requires
            old(self).wf(),
            time_entry.wf(),
        ensures
            final(self).wf(),
            final(self).time_entries@ == upsert_entry(old(self).time_entries@, *time_entry),
            final(self).events@ == old(self).events@,
            final(self).expected_durations@ == old(self).expected_durations@,
    {
        let n = self.time_entries.len();
        let mut i: usize = 0;
        while i < n
            invariant
                n == self.time_entries@.len(),
                *self == *old(self),
                old(self).wf(),
                time_entry.wf(),
                forall|j: int| 0 <= j < i ==> (#[trigger] self.time_entries@[j]).id != time_entry.id,
            decreases n - i,
        {
            if self.time_entries[i].id == time_entry.id {
                let ghost s = self.time_entries@;
                self.time_entries.set(i, time_entry.duplicate());
                proof {
                    let c = choose|c: int| 0 <= c < s.len() && #[trigger] s[c].id == time_entry.id;
                    if c != i {
                        assert(s[c].id != s[i as int].id);
                    }
                    assert(self.time_entries@ =~= upsert_entry(s, *time_entry));
                    lemma_upsert_entry_unique(s, *time_entry);
                    assert forall|j: int| 0 <= j < self.time_entries@.len() implies (
                    #[trigger] self.time_entries@[j]).wf() by {
                        if j != i {
                            assert(self.time_entries@[j] == s[j]);
                        }
                    }
                }
                return;
            }
            i = i + 1;
        }
        let ghost s = self.time_entries@;
        self.time_entries.push(time_entry.duplicate());
        proof {
            assert(!exists|c: int| 0 <= c < s.len() && #[trigger] s[c].id == time_entry.id);
            lemma_upsert_entry_unique(s, *time_entry);
            assert forall|j: int| 0 <= j < self.time_entries@.len() implies (
            #[trigger] self.time_entries@[j]).wf() by {
                if j < s.len() {
                    assert(self.time_entries@[j] == s[j]);
                }
            }
        }
    }

    /// Writes time entries one after the other, each replacing the stored
    /// entry with the same id.
    pub fn insert_time_entries(&mut self, time_entries: &Vec<TimeEntry>)
        requires
            old(self).wf(),
            entries_wf(time_entries@),
        ensures
            final(self).wf(),
            final(self).time_entries@ == upsert_entries(old(self).time_entries@, time_entries@),
            final(self).events@ == old(self).events@,
            final(self).expected_durations@ == old(self).expected_durations@,
    {
        let n = time_entries.len();
        for i in 0..n
            invariant
                n == time_entries@.len(),
                self.wf(),
                entries_wf(time_entries@),
                self.time_entries@ == upsert_entries(
                    old(self).time_entries@,
                    time_entries@.subrange(0, i as int),
                ),
                self.events@ == old(self).events@,
                self.expected_durations@ == old(self).expected_durations@,
        {
            assert(time_entries@[i as int].wf());
            self.insert_time_entry(&time_entries[i]);
            assert(time_entries@.subrange(0, i + 1).drop_last() =~= time_entries@.subrange(
                0,
                i as int,
            ));
        }
        assert(time_entries@.subrange(0, n as int) =~= time_entries@);
    }

    /// Writes an expected duration, replacing the stored one of its date.
    pub fn insert_expected_duration(&mut self, expected_duration: ExpectedDuration)
        requires
            old(self).wf(),
            expected_duration.wf(),
        ensures
            final(self).wf(),
            final(self).expected_durations@ == upsert_expected(
                old(self).expected_durations@,
                expected_duration,
            ),
            final(self).events@ == old(self).events@,
            final(self).time_entries@ == old(self).time_entries@,
    {
        let n = self.expected_durations.len();
        let mut i: usize = 0;
        while i < n
            invariant
                n == self.expected_durations@.len(),
                *self == *old(self),
                old(self).wf(),
                expected_duration.wf(),
                forall|j: int|
                    0 <= j < i ==> (#[trigger] self.expected_durations@[j]).date
                        != expected_duration.date,
            decreases n - i,
        {
            if self.expected_durations[i].date.day == expected_duration.date.day {
                let ghost s = self.expected_durations@;
                self.expected_durations.set(i, expected_duration.duplicate());
                proof {
                    let c = choose|c: int|
                        0 <= c < s.len() && #[trigger] s[c].date == expected_duration.date;
                    if c != i {
                        assert(s[c].date != s[i as int].date);
                    }
                    assert(self.expected_durations@ =~= upsert_expected(s, expected_duration));
                    lemma_upsert_expected_unique(s, expected_duration);
                    assert forall|j: int| 0 <= j < self.expected_durations@.len() implies (
                    #[trigger] self.expected_durations@[j]).wf() by {
                        if j != i {
                            assert(self.expected_durations@[j] == s[j]);
                        }
                    }
                }
                return;
            }
            i = i + 1;
        }
        let ghost s = self.expected_durations@;
        self.expected_durations.push(expected_duration);
        proof {
            assert(!exists|c: int|
                0 <= c < s.len() && #[trigger] s[c].date == expected_duration.date);
            lemma_upsert_expected_unique(s, expected_duration);
            assert forall|j: int| 0 <= j < self.expected_durations@.len() implies (
            #[trigger] self.expected_durations@[j]).wf() by {
                if j < s.len() {
                    assert(self.expected_durations@[j] == s[j]);
                }
            }
        }
    }

    /// Whether an expected duration is stored for `day`.
    fn holds_expected(&self, day: i64) -> (r: bool)
        ensures
            r == has_expected(self.expected_durations@, day as int),
    {
        let n = self.expected_durations.len();
        for i in 0..n
            invariant
                n == self.expected_durations@.len(),
                forall|j: int| 0 <= j < i ==> (#[trigger] self.expected_durations@[j]).date.day != day,
        {
            if self.expected_durations[i].date.day == day {
                return true;
            }
        }
        false
    }

    /// The stored expected duration of `date`, if any.
    pub fn get_expected_duration(&self, date: Date) -> (r: Option<Duration>)
        ensures
            r is Some <==> has_expected(self.expected_durations@, date.day as int),
            r matches Some(d) ==> exists|i: int|
                0 <= i < self.expected_durations@.len() && #[trigger] self.expected_durations@[i]
                    == (ExpectedDuration { date, duration: d }),
    {
        let n = self.expected_durations.len();
        for i in 0..n
            invariant
                n == self.expected_durations@.len(),
                forall|j: int| 0 <= j < i ==> (#[trigger] self.expected_durations@[j]).date.day != date.day,
        {
            if self.expected_durations[i].date.day == date.day {
                let found = self.expected_durations[i].duration;
                assert(self.expected_durations@[i as int] == (ExpectedDuration { date, duration: found }));
                return Some(found);
            }
        }
        None
    }

    /// Stores `default` as the expected duration of every date on which a
    /// time entry starts and none is stored yet. The stored ones are kept, so
    /// a later change of the default leaves the dates filled in before as
    /// they are.
    pub fn insert_default_expected_duration(&mut self, default: Duration)
        requires
            old(self).wf(),
            default.wf(),
        ensures
            final(self).wf(),
            final(self).expected_durations@.len() >= old(self).expected_durations@.len(),
            forall|i: int|
                0 <= i < old(self).expected_durations@.len() ==> #[trigger] final(self).expected_durations@[i]
                    == old(self).expected_durations@[i],
            forall|i: int|
                old(self).expected_durations@.len() <= i < final(self).expected_durations@.len()
                    ==> {
                    &&& (#[trigger] final(self).expected_durations@[i]).duration == default
                    &&& is_active(
                        old(self).time_entries@,
                        final(self).expected_durations@[i].date.day as int,
                    )
                    &&& !has_expected(
                        old(self).expected_durations@,
                        final(self).expected_durations@[i].date.day as int,
                    )
                },
            forall|d: int|
                #[trigger] is_active(old(self).time_entries@, d) ==> has_expected(
                    final(self).expected_durations@,
                    d,
                ),
            final(self).events@ == old(self).events@,
            final(self).time_entries@ == old(self).time_entries@,
    {
        let days = active_days(&self.time_entries);
        let n = days.len();
        for k in 0..n
            invariant
                n == days@.len(),
                self.wf(),
                default.wf(),
                forall|q: int|
                    0 <= q < days@.len() ==> is_active(old(self).time_entries@, #[trigger] days@[q] as int),
                forall|d: int| is_active(old(self).time_entries@, d) ==> holds_day(days@, d),
                self.events@ == old(self).events@,
                self.time_entries@ == old(self).time_entries@,
                self.expected_durations@.len() >= old(self).expected_durations@.len(),
                forall|i: int|
                    0 <= i < old(self).expected_durations@.len() ==> #[trigger] self.expected_durations@[i]
                        == old(self).expected_durations@[i],
                forall|i: int|
                    old(self).expected_durations@.len() <= i < self.expected_durations@.len() ==> {
                        &&& (#[trigger] self.expected_durations@[i]).duration == default
                        &&& is_active(
                            old(self).time_entries@,
                            self.expected_durations@[i].date.day as int,
                        )
                        &&& !has_expected(
                            old(self).expected_durations@,
                            self.expected_durations@[i].date.day as int,
                        )
                    },
                forall|q: int| 0 <= q < k ==> has_expected(self.expected_durations@, #[trigger] days@[q] as int),
        {
            let d = days[k];
            if !self.holds_expected(d) {
                let ghost s = self.expected_durations@;
                self.expected_durations.push(ExpectedDuration { date: Date { day: d }, duration: default });
                proof {
                    let m = old(self).expected_durations@.len();
                    assert forall|i: int, j: int|
                        0 <= i < self.expected_durations@.len() && 0 <= j < self.expected_durations@.len() && i != j
                        implies self.expected_durations@[i].date != self.expected_durations@[j].date by {
                        if i == s.len() {
                            assert(!(s[j].date.day == d));
                        } else if j == s.len() {
                            assert(!(s[i].date.day == d));
                        } else {
                            assert(s[i].date != s[j].date);
                        }
                    }
                    assert forall|j: int| 0 <= j < self.expected_durations@.len() implies (
                    #[trigger] self.expected_durations@[j]).wf() by {
                        if j < s.len() {
                            assert(self.expected_durations@[j] == s[j]);
                        }
                    }
                    assert(!has_expected(old(self).expected_durations@, d as int)) by {
                        if has_expected(old(self).expected_durations@, d as int) {
                            let w = choose|w: int| 0 <= w < m && #[trigger] old(self).expected_durations@[w].date.day == d;
                            assert(s[w].date.day == d);
                        }
                    }
                    assert forall|q: int| 0 <= q < k + 1 implies has_expected(self.expected_durations@, #[trigger] days@[q] as int) by {
                        if q < k {
                            let w = choose|w: int| 0 <= w < s.len() && #[trigger] s[w].date.day == days@[q];
                            assert(self.expected_durations@[w] == s[w]);
                        } else {
                            assert(self.expected_durations@[s.len() as int].date.day == d);
                        }
                    }
                }
            }
        }
        proof {
            assert forall|d: int| #[trigger] is_active(old(self).time_entries@, d) implies has_expected(
                self.expected_durations@,
                d,
            ) by {
                let m = choose|m: int| 0 <= m < days@.len() && days@[m] == d;
                assert(has_expected(self.expected_durations@, days@[m] as int));
            }
        }
    }

    /// The stored events, in the order of the store.
    pub fn list_events(&self) -> (r: Vec<Event>)
        ensures
            r@ == self.events@,
    {
        let mut out: Vec<Event> = Vec::new();
        let n = self.events.len();
        for i in 0..n
            invariant
                n == self.events@.len(),
                out@ == self.events@.subrange(0, i as int),
        {
            out.push(self.events[i].duplicate());
            assert(out@ =~= self.events@.subrange(0, i + 1));
        }
        assert(self.events@.subrange(0, n as int) =~= self.events@);
        out
    }

    /// The stored time entries, in the order of the store.
    pub fn list_time_entries(&self) -> (r: Vec<TimeEntry>)
        ensures
            r@ == self.time_entries@,
    {
        let mut out: Vec<TimeEntry> = Vec::new();
        let n = self.time_entries.len();
        for i in 0..n
            invariant
                n == self.time_entries@.len(),
                out@ == self.time_entries@.subrange(0, i as int),
        {
            out.push(self.time_entries[i].duplicate());
            assert(out@ =~= self.time_entries@.subrange(0, i + 1));
        }
        assert(self.time_entries@.subrange(0, n as int) =~= self.time_entries@);
        out
    }

    /// The stored expected durations, in the order of the store.
    pub fn list_expected_durations(&self) -> (r: Vec<ExpectedDuration>)
        ensures
            r@ == self.expected_durations@,
    {
        let mut out: Vec<ExpectedDuration> = Vec::new();
        let n = self.expected_durations.len();
        for i in 0..n
            invariant
                n == self.expected_durations@.len(),
                out@ == self.expected_durations@.subrange(0, i as int),
        {
            out.push(self.expected_durations[i].duplicate());
            assert(out@ =~= self.expected_durations@.subrange(0, i + 1));
        }
        assert(self.expected_durations@.subrange(0, n as int) =~= self.expected_durations@);
        out
    }

    /// The stored events dated `date`, in the order of the store: one for
    /// each name seen on that date.
    pub fn view_events_where_date_eq(&self, date: Date) -> (r: Vec<Event>)
        ensures
            r@ == events_on(self.events@, date.day as int),
    {
        let mut out: Vec<Event> = Vec::new();
        let n = self.events.len();
        for i in 0..n
            invariant
                n == self.events@.len(),
                out@ == events_on(self.events@.subrange(0, i as int), date.day as int),
        {
            assert(self.events@.subrange(0, i + 1).drop_last() =~= self.events@.subrange(0, i as int));
            if self.events[i].time.date().day == date.day {
                out.push(self.events[i].duplicate());
            }
        }
        assert(self.events@.subrange(0, n as int) =~= self.events@);
        out
    }

    /// Every name of a stored event, once, in the order of first occurrence.
    pub fn view_event_names(&self) -> (r: Vec<String>)
        ensures
            texts(r@) == distinct_names(self.events@),
    {
        let mut names: Vec<String> = Vec::new();
        let n = self.events.len();
        for i in 0..n
            invariant
                n == self.events@.len(),
                texts(names@) == distinct_names(self.events@.subrange(0, i as int)),
        {
            assert(self.events@.subrange(0, i + 1).drop_last() =~= self.events@.subrange(0, i as int));
            if !holds_text(&names, &self.events[i].name) {
                names.push(self.events[i].name.clone());
                assert(texts(names@) =~= distinct_names(self.events@.subrange(0, i + 1)));
            }
        }
        assert(self.events@.subrange(0, n as int) =~= self.events@);
        names
    }

    /// The report over `[start, end]` from the stored records.
    pub fn view_timesheet(&self, default: Duration, start: Date, end: Date) -> (r: Result<
        Vec<TimeSheetRow>,
        ReportError,
    >)
        requires
            self.wf(),
            default.wf(),
        ensures
            r is Ok <==> report_fits(
                self.time_entries@,
                self.expected_durations@,
                default,
                start,
                end,
            ),
            r matches Ok(rows) ==> is_timesheet(
                rows@,
                self.time_entries@,
                self.expected_durations@,
                self.events@,
                default,
                start,
                end,
            ),
    {
        view_timesheet(
            &self.time_entries,
            &self.expected_durations,
            &self.events,
            default,
            start,
            end,
        )
    }

    /// The contiguous report over `[start, end]` from the stored records.
    pub fn view_full_timesheet(&self, default: Duration, start: Date, end: Date) -> (r: Result<
        Vec<TimeSheetRow>,
        ReportError,
    >)
        requires
            self.wf(),
            default.wf(),
        ensures
            r is Ok <==> report_fits(
                self.time_entries@,
                self.expected_durations@,
                default,
                start,
                end,
            ),
            r matches Ok(rows) ==> is_full_timesheet(
                rows@,
                self.time_entries@,
                self.expected_durations@,
                self.events@,
                default,
                start,
                end,
            ),
            r matches Ok(rows) ==> saldo_chained(rows@),
    {
        view_full_timesheet(
            &self.time_entries,
            &self.expected_durations,
            &self.events,
            default,
            start,
            end,
        )
    }

    /// The report over every day with activity.
    pub fn view_timesheet_export(&self, default: Duration) -> (r: Result<
        Vec<TimeSheetRow>,
        ReportError,
    >)
        requires
            self.wf(),
            default.wf(),
        ensures
            r is Ok <==> report_fits(
                self.time_entries@,
                self.expected_durations@,
                default,
                Date { day: i64::MIN },
                Date { day: i64::MAX },
            ),
            r matches Ok(rows) ==> is_timesheet(
                rows@,
                self.time_entries@,
                self.expected_durations@,
                self.events@,
                default,
                Date { day: i64::MIN },
                Date { day: i64::MAX },
            ),
    {
        self.view_timesheet(default, Date { day: i64::MIN }, Date { day: i64::MAX })
    }
}

/// A store of values by key.
pub trait DocumentStore<K, V> {
    /// The values that the store holds, by key.
    spec fn documents(&self) -> Map<K, V>;

    /// Whether the store is in a consistent state.
    spec fn well_formed(&self) -> bool;

    /// Whether `value` is one that the store can hold under `key`.
    spec fn storable(key: K, value: V) -> bool;

    /// Stores `value` under `key`, replacing what was stored there.
    fn put(&mut self, key: K, value: V)
        requires
            old(self).well_formed(),
            Self::storable(key, value),
        ensures
            final(self).well_formed(),
            final(self).documents() == old(self).documents().insert(key, value),
    ;

    /// The value stored under `key`, if any.
    fn get(&self, key: &K) -> (r: Option<V>)
        requires
            self.well_formed(),
        ensures
            r == (if self.documents().contains_key(*key) {
                Some(self.documents()[*key])
            } else {
                None
            }),
    ;
}

/// The expected durations by date.
pub open spec fn expected_by_date(s: Seq<ExpectedDuration>) -> Map<Date, Duration> {
    Map::new(
        |d: Date| has_expected(s, d.day as int),
        |d: Date| s[choose|i: int| 0 <= i < s.len() && #[trigger] s[i].date.day == d.day].duration,
    )
}

/// With unique dates, the duration stored for a date is the one of its record.
proof fn lemma_expected_by_date(s: Seq<ExpectedDuration>, i: int)
    requires
        expected_unique(s),
        0 <= i < s.len(),
    ensures
        expected_by_date(s).contains_key(s[i].date),
        expected_by_date(s)[s[i].date] == s[i].duration,
{
    assert(has_expected(s, s[i].date.day as int));
    let c = choose|c: int| 0 <= c < s.len() && #[trigger] s[c].date.day == s[i].date.day;
    if c != i {
        assert(s[c].date != s[i].date);
    }
}

/// Writing an expected duration stores its duration under its date.
proof fn lemma_upsert_expected_by_date(s: Seq<ExpectedDuration>, e: ExpectedDuration)
    requires
        expected_unique(s),
    ensures
        expected_by_date(upsert_expected(s, e)) == expected_by_date(s).insert(e.date, e.duration),
{
    let t = upsert_expected(s, e);
    lemma_upsert_expected_unique(s, e);
    let m = expected_by_date(s).insert(e.date, e.duration);
    let found = exists|i: int| 0 <= i < s.len() && #[trigger] s[i].date == e.date;
    let c = choose|i: int| 0 <= i < s.len() && #[trigger] s[i].date == e.date;
    let ci = if found { c } else { s.len() as int };
    assert(t[ci] == e);
    assert forall|j: int| 0 <= j < t.len() && j != ci implies #[trigger] t[j] == s[j] by {}
    assert forall|d: Date| #[trigger] expected_by_date(t).contains_key(d) <==> m.contains_key(d) by {
        if has_expected(t, d.day as int) {
            let j = choose|j: int| 0 <= j < t.len() && #[trigger] t[j].date.day == d.day;
            if j != ci {
                assert(s[j].date.day == d.day);
            }
        }
        if has_expected(s, d.day as int) {
            let j = choose|j: int| 0 <= j < s.len() && #[trigger] s[j].date.day == d.day;
            if j != ci {
                assert(t[j].date.day == d.day);
            } else {
                assert(t[ci].date.day == d.day);
            }
        }
        if d == e.date {
            assert(t[ci].date.day == d.day);
        }
    }
    assert forall|d: Date| #[trigger] expected_by_date(t).contains_key(d) implies expected_by_date(
        t,
    )[d] == m[d] by {
        let j = choose|j: int| 0 <= j < t.len() && #[trigger] t[j].date.day == d.day;
        lemma_expected_by_date(t, j);
        if j == ci {
            assert(t[j].date == d);
        } else {
            assert(t[j] == s[j]);
            lemma_expected_by_date(s, j);
            assert(s[j].date == d);
            assert(d != e.date);
        }
    }
    assert(expected_by_date(t) =~= m);
}

impl DocumentStore<Date, Duration> for TimeStore {
    open spec fn documents(&self) -> Map<Date, Duration> {
        expected_by_date(self.expected_durations@)
    }

    open spec fn well_formed(&self) -> bool {
        self.wf()
    }

    open spec fn storable(key: Date, value: Duration) -> bool {
        value.wf()
    }

    fn put(&mut self, key: Date, value: Duration) {
        let record = ExpectedDuration { date: key, duration: value };
        self.insert_expected_duration(record);
        proof {
            lemma_upsert_expected_by_date(old(self).expected_durations@, record);
        }
    }

    fn get(&self, key: &Date) -> (r: Option<Duration>) {
        let r = self.get_expected_duration(*key);
        proof {
            match r {
                Some(d) => {
                    let i = choose|i: int|
                        0 <= i < self.expected_durations@.len() && #[trigger] self.expected_durations@[i]
                            == (ExpectedDuration { date: *key, duration: d });
                    lemma_expected_by_date(self.expected_durations@, i);
                },
                None => {},
            }
        }
        r
    }
}

} // verus!
