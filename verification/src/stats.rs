//! Statistics read from the rollup tables and the day timeline: day summaries and
//! the month calendar, focus statistics and active app switches.

use vstd::prelude::*;
use crate::rollup::RollupRow;
use crate::text::{
    chars_of, string_from, concat, u64_text, decimal_text, eq_ignore_ascii_case, eq_ignore_case_spec, zero_padded,
    zero_pad,
};
use crate::zone::{TimeZoneContext, ZoneError, max_int, min_int, valid_instant};
use crate::model::PresenceState;
use crate::api::{lex_lt, lex_less, lemma_lex_total, lemma_lex_transitive};
use crate::text::seq_equal;
use crate::clock::{date_from_calendar, day_of_calendar, days_in_month, month_length, date_text, date_text_of};

verus! {

/// An application or domain with its seconds.
#[derive(Clone, Debug)]
pub struct KeyedDurationEntry {
    pub key: String,
    pub label: String,
    pub seconds: i64,
}

/// Totals of one local date.
#[derive(Clone, Debug)]
pub struct DaySummary {
    pub date: String,
    pub focus_seconds: i64,
    pub active_seconds: i64,
    pub browser_seconds: i64,
    pub switch_count: i64,
    pub active_app_seconds: i64,
    pub active_browser_seconds: i64,
    pub active_switch_count: i64,
    pub top_app: Option<KeyedDurationEntry>,
    pub top_domain: Option<KeyedDurationEntry>,
}

/// Seconds of the rows on `date`.
pub open spec fn seconds_on(rows: Seq<RollupRow>, date: int) -> int
    decreases rows.len(),
{
    if rows.len() == 0 {
        0
    } else {
        seconds_on(rows.drop_last(), date) + if rows.last().date == date {
            rows.last().seconds as int
        } else {
            0
        }
    }
}

/// Segment counts of the rows on `date`.
pub open spec fn counts_on(rows: Seq<RollupRow>, date: int) -> int
    decreases rows.len(),
{
    if rows.len() == 0 {
        0
    } else {
        counts_on(rows.drop_last(), date) + if rows.last().date == date {
            rows.last().segment_count as int
        } else {
            0
        }
    }
}

/// The row on `date` with the most seconds; of equal ones, the first.
pub open spec fn top_on(rows: Seq<RollupRow>, date: int) -> Option<RollupRow>
    decreases rows.len(),
{
    if rows.len() == 0 {
        None
    } else {
        let prev = top_on(rows.drop_last(), date);
        let r = rows.last();
        if r.date == date && (match prev {
            Some(p) => r.seconds > p.seconds,
            None => true,
        }) {
            Some(r)
        } else {
            prev
        }
    }
}

/// Seconds of `(date, seconds)` pairs on `date`.
pub open spec fn pair_seconds_on(rows: Seq<(i64, i64)>, date: int) -> int
    decreases rows.len(),
{
    if rows.len() == 0 {
        0
    } else {
        pair_seconds_on(rows.drop_last(), date) + if rows.last().0 == date {
            rows.last().1 as int
        } else {
            0
        }
    }
}

pub open spec fn abs(x: int) -> int {
    if x < 0 {
        -x
    } else {
        x
    }
}

/// Sum of the magnitudes of the rows' seconds and counts: what every partial sum
/// stays within.
pub open spec fn row_magnitude(rows: Seq<RollupRow>) -> int
    decreases rows.len(),
{
    if rows.len() == 0 {
        0
    } else {
        row_magnitude(rows.drop_last()) + abs(rows.last().seconds as int) + abs(
            rows.last().segment_count as int,
        )
    }
}

pub open spec fn pair_magnitude(rows: Seq<(i64, i64)>) -> int
    decreases rows.len(),
{
    if rows.len() == 0 {
        0
    } else {
        pair_magnitude(rows.drop_last()) + abs(rows.last().1 as int)
    }
}

proof fn lemma_row_sums_bounded(rows: Seq<RollupRow>, date: int)
    ensures
        abs(seconds_on(rows, date)) <= row_magnitude(rows),
        abs(counts_on(rows, date)) <= row_magnitude(rows),
        abs(seconds_on(rows, date)) + abs(counts_on(rows, date)) <= row_magnitude(rows),
        row_magnitude(rows) >= 0,
    decreases rows.len(),
{
    if rows.len() > 0 {
        lemma_row_sums_bounded(rows.drop_last(), date);
    }
}

proof fn lemma_pair_sums_bounded(rows: Seq<(i64, i64)>, date: int)
    ensures
        abs(pair_seconds_on(rows, date)) <= pair_magnitude(rows),
        pair_magnitude(rows) >= 0,
    decreases rows.len(),
{
    if rows.len() > 0 {
        lemma_pair_sums_bounded(rows.drop_last(), date);
    }
}

proof fn lemma_row_magnitude_prefix(rows: Seq<RollupRow>, i: int)
    requires
        0 <= i <= rows.len(),
    ensures
        row_magnitude(rows.subrange(0, i)) <= row_magnitude(rows),
    decreases rows.len() - i,
{
    if i < rows.len() {
        lemma_row_magnitude_prefix(rows, i + 1);
        assert(rows.subrange(0, i + 1).drop_last() =~= rows.subrange(0, i));
    } else {
        assert(rows.subrange(0, i) =~= rows);
    }
}

proof fn lemma_pair_magnitude_prefix(rows: Seq<(i64, i64)>, i: int)
    requires
        0 <= i <= rows.len(),
    ensures
        pair_magnitude(rows.subrange(0, i)) <= pair_magnitude(rows),
    decreases rows.len() - i,
{
    if i < rows.len() {
        lemma_pair_magnitude_prefix(rows, i + 1);
        assert(rows.subrange(0, i + 1).drop_last() =~= rows.subrange(0, i));
    } else {
        assert(rows.subrange(0, i) =~= rows);
    }
}

/// The seconds, counts and top row of `rows` on `date`.
fn totals_on(rows: &Vec<RollupRow>, date: i64) -> (r: (i64, i64, Option<usize>))
    requires
        row_magnitude(rows@) <= i64::MAX,
    ensures
        r.0 == seconds_on(rows@, date as int),
        r.1 == counts_on(rows@, date as int),
        match r.2 {
            Some(i) => i < rows@.len() && top_on(rows@, date as int) == Some(rows@[i as int]),
            None => top_on(rows@, date as int) is None,
        },
{
    let mut seconds: i64 = 0;
    let mut counts: i64 = 0;
    let mut top: Option<usize> = None;
    let mut i: usize = 0;
    while i < rows.len()
        invariant
            i <= rows@.len(),
            row_magnitude(rows@) <= i64::MAX,
            seconds == seconds_on(rows@.subrange(0, i as int), date as int),
            counts == counts_on(rows@.subrange(0, i as int), date as int),
            match top {
                Some(k) => k < i && top_on(rows@.subrange(0, i as int), date as int) == Some(rows@[k as int]),
                None => top_on(rows@.subrange(0, i as int), date as int) is None,
            },
        decreases rows@.len() - i,
    {
        let r = &rows[i];
        proof {
            let p = rows@.subrange(0, i + 1);
            assert(p.drop_last() =~= rows@.subrange(0, i as int));
            assert(p.last() == rows@[i as int]);
            lemma_row_magnitude_prefix(rows@, i + 1);
            lemma_row_sums_bounded(p, date as int);
        }
        if r.date == date {
            seconds = seconds + r.seconds;
            counts = counts + r.segment_count;
            let better = match top {
                Some(k) => r.seconds > rows[k].seconds,
                None => true,
            };
            if better {
                top = Some(i);
            }
        }
        i += 1;
    }
    proof {
        assert(rows@.subrange(0, rows@.len() as int) =~= rows@);
    }
    (seconds, counts, top)
}

/// The seconds of `(date, seconds)` pairs on `date`.
fn pair_total_on(rows: &Vec<(i64, i64)>, date: i64) -> (r: i64)
    requires
        pair_magnitude(rows@) <= i64::MAX,
    ensures
        r == pair_seconds_on(rows@, date as int),
{
    let mut total: i64 = 0;
    let mut i: usize = 0;
    while i < rows.len()
        invariant
            i <= rows@.len(),
            pair_magnitude(rows@) <= i64::MAX,
            total == pair_seconds_on(rows@.subrange(0, i as int), date as int),
        decreases rows@.len() - i,
    {
        proof {
            let p = rows@.subrange(0, i + 1);
            assert(p.drop_last() =~= rows@.subrange(0, i as int));
            assert(p.last() == rows@[i as int]);
            lemma_pair_magnitude_prefix(rows@, i + 1);
            lemma_pair_sums_bounded(p, date as int);
        }
        if rows[i].0 == date {
            total = total + rows[i].1;
        }
        i += 1;
    }
    proof {
        assert(rows@.subrange(0, rows@.len() as int) =~= rows@);
    }
    total
}

/// The entry for a top row: an application keeps its label, a domain is its own
/// label.
pub open spec fn entry_matches(e: Option<KeyedDurationEntry>, top: Option<RollupRow>, label_is_key: bool) -> bool {
    match (e, top) {
        (None, None) => true,
        (Some(e), Some(t)) => e.key@ == t.key@ && e.seconds == t.seconds && e.label@ == if label_is_key {
            t.key@
        } else {
            t.label@
        },
        _ => false,
    }
}

fn entry_for(rows: &Vec<RollupRow>, top: Option<usize>, label_is_key: bool) -> (r: Option<KeyedDurationEntry>)
    requires
        top matches Some(i) ==> i < rows@.len(),
    ensures
        entry_matches(r, match top {
            Some(i) => Some(rows@[i as int]),
            None => None,
        }, label_is_key),
{
    match top {
        Some(i) => {
            let r = &rows[i];
            Some(
                KeyedDurationEntry {
                    key: r.key.clone(),
                    label: if label_is_key {
                        r.key.clone()
                    } else {
                        r.label.clone()
                    },
                    seconds: r.seconds,
                },
            )
        },
        None => None,
    }
}

/// The rollup rows and active totals a summary of one date is made from.
/// `app_rows` and `domain_rows` are daily usage rows; `active_rows`,
/// `active_app_rows` and `active_domain_rows` are `(date, seconds)` pairs of active
/// presence, active application and active domain usage.
pub struct SummaryInputs {
    pub app_rows: Vec<RollupRow>,
    pub domain_rows: Vec<RollupRow>,
    pub active_rows: Vec<(i64, i64)>,
    pub active_app_rows: Vec<(i64, i64)>,
    pub active_domain_rows: Vec<(i64, i64)>,
}

impl SummaryInputs {
    /// Every partial sum fits in `i64`.
    pub open spec fn fits(self) -> bool {
        &&& row_magnitude(self.app_rows@) <= i64::MAX
        &&& row_magnitude(self.domain_rows@) <= i64::MAX
        &&& pair_magnitude(self.active_rows@) <= i64::MAX
        &&& pair_magnitude(self.active_app_rows@) <= i64::MAX
        &&& pair_magnitude(self.active_domain_rows@) <= i64::MAX
    }
}

/// The summary of date `date`: application and browser seconds, the application
/// segment count less one as the switch count, active totals, and the application
/// and domain with the most seconds.
pub open spec fn summary_matches(s: DaySummary, date: int, inputs: SummaryInputs, active_switch_count: i64) -> bool {
    &&& s.date@ == date_text_of(date)
    &&& s.focus_seconds == seconds_on(inputs.app_rows@, date)
    &&& s.browser_seconds == seconds_on(inputs.domain_rows@, date)
    &&& s.switch_count == counts_on(inputs.app_rows@, date) - 1
    &&& s.active_seconds == pair_seconds_on(inputs.active_rows@, date)
    &&& s.active_app_seconds == pair_seconds_on(inputs.active_app_rows@, date)
    &&& s.active_browser_seconds == pair_seconds_on(inputs.active_domain_rows@, date)
    &&& s.active_switch_count == active_switch_count
    &&& entry_matches(s.top_app, top_on(inputs.app_rows@, date), false)
    &&& entry_matches(s.top_domain, top_on(inputs.domain_rows@, date), true)
}

/// Summarizes local date `date` from the rows of `inputs` that fall on it.
pub fn summarize_day(date: i64, inputs: &SummaryInputs, active_switch_count: i64) -> (r: DaySummary)
    requires
        inputs.fits(),
    ensures
        summary_matches(r, date as int, *inputs, active_switch_count),
{
    let (focus_seconds, focus_count, top_app) = totals_on(&inputs.app_rows, date);
    let (browser_seconds, _, top_domain) = totals_on(&inputs.domain_rows, date);
    proof {
        lemma_row_sums_bounded(inputs.app_rows@, date as int);
    }
    DaySummary {
        date: date_text(date),
        focus_seconds,
        active_seconds: pair_total_on(&inputs.active_rows, date),
        browser_seconds,
        switch_count: focus_count - 1,
        active_app_seconds: pair_total_on(&inputs.active_app_rows, date),
        active_browser_seconds: pair_total_on(&inputs.active_domain_rows, date),
        active_switch_count,
        top_app: entry_for(&inputs.app_rows, top_app, false),
        top_domain: entry_for(&inputs.domain_rows, top_domain, true),
    }
}

/// Why a month cannot be shown.
#[derive(Clone, Copy, Debug, PartialEq, Eq, Structural)]
pub enum MonthError {
    /// The year and month do not name a calendar month.
    InvalidMonth,
    /// One active switch count per day of the month is needed.
    SwitchCountsMismatch,
}

/// The calendar of a month: one summary per day from the first of the month, each
/// with that day's active switch count. `switch_counts` holds one count per day.
pub fn month_calendar(year: i32, month: u8, inputs: &SummaryInputs, switch_counts: &Vec<i64>) -> (r: Result<
    Vec<DaySummary>,
    MonthError,
>)
    requires
        inputs.fits(),
        -9999 <= year <= 9999,
    ensures
        match r {
            Ok(days) => 1 <= month <= 12 && day_of_calendar(year as int, month as int, 1) is Some
                && switch_counts@.len() == month_length(year as int, month as int) && days@.len()
                == switch_counts@.len() && forall|k: int|
                0 <= k < days@.len() ==> summary_matches(
                    #[trigger] days@[k],
                    day_of_calendar(year as int, month as int, 1)->Some_0 + k,
                    *inputs,
                    switch_counts@[k],
                ),
            Err(MonthError::InvalidMonth) => !(1 <= month <= 12) || day_of_calendar(year as int, month as int, 1) is None,
            Err(MonthError::SwitchCountsMismatch) => 1 <= month <= 12 && day_of_calendar(year as int, month as int, 1) is Some
                && switch_counts@.len() != month_length(year as int, month as int),
        },
{
    if month < 1 || month > 12 {
        return Err(MonthError::InvalidMonth);
    }
    let first = match date_from_calendar(year, month, 1) {
        Some(d) => d,
        None => return Err(MonthError::InvalidMonth),
    };
    let n = days_in_month(year, month);
    if switch_counts.len() != n as usize {
        return Err(MonthError::SwitchCountsMismatch);
    }
    let mut days: Vec<DaySummary> = Vec::new();
    let mut k: usize = 0;
    while k < switch_counts.len()
        invariant
            k <= switch_counts@.len(),
            switch_counts@.len() <= 31,
            inputs.fits(),
            day_of_calendar(year as int, month as int, 1) == Some(first as int),
            i32::MIN <= first <= i32::MAX,
            days@.len() == k,
            forall|j: int|
                0 <= j < k ==> summary_matches(#[trigger] days@[j], first + j, *inputs, switch_counts@[j]),
        decreases switch_counts@.len() - k,
    {
        let d = first + k as i64;
        days.push(summarize_day(d, inputs, switch_counts[k]));
        k += 1;
    }
    Ok(days)
}

/// `YYYY-MM` as `{:04}-{:02}` writes it: the year zero-padded to four characters,
/// its sign included.
pub open spec fn month_label_spec(year: int, month: int) -> Seq<char> {
    let y = if year < 0 {
        seq!['-'] + zero_padded((-year) as nat, 3)
    } else {
        zero_padded(year as nat, 4)
    };
    y + seq!['-'] + zero_padded(month as nat, 2)
}

pub fn month_label(year: i32, month: u8) -> (r: String)
    ensures
        r@ == month_label_spec(year as int, month as int),
{
    let y = if year < 0 {
        let mut sign: Vec<char> = Vec::new();
        sign.push('-');
        assert(sign@ =~= seq!['-']);
        let magnitude: u64 = (0 - (year as i64)) as u64;
        concat(&sign, &zero_pad(magnitude, 3))
    } else {
        zero_pad(year as u64, 4)
    };
    let mut dash: Vec<char> = Vec::new();
    dash.push('-');
    assert(dash@ =~= seq!['-']);
    string_from(&concat(&concat(&y, &dash), &zero_pad(month as u64, 2)))
}

// ---------------------------------------------------------------------------
// Active switches
// ---------------------------------------------------------------------------

/// A stretch of time attributed to a key (a process name).
#[derive(Clone, Debug)]
pub struct Span {
    pub key: String,
    pub start: i64,
    pub end: i64,
}

/// Switches inside one active window `[a_start, a_end)`, scanning start-ordered focus
/// spans: spans ending by `a_start` are skipped, the scan stops at the first span
/// starting at or after `a_end`, and each remaining span whose process differs
/// (ignoring ASCII case) from the previous one is a switch.
pub open spec fn window_switches(focus: Seq<Span>, a_start: int, a_end: int, prev: Option<Seq<char>>) -> int
    decreases focus.len(),
{
    if focus.len() == 0 {
        0
    } else {
        let f = focus[0];
        if f.start >= a_end {
            0
        } else if f.end <= a_start {
            window_switches(focus.drop_first(), a_start, a_end, prev)
        } else {
            (if (prev matches Some(p) && !eq_ignore_case_spec(p, f.key@)) {
                1int
            } else {
                0int
            }) + window_switches(focus.drop_first(), a_start, a_end, Some(f.key@))
        }
    }
}

/// Active switches of one local day `[day_start, day_end)`: over the active
/// intervals, each clipped to the day, the switches inside it.
pub open spec fn day_switches(active: Seq<(i64, i64)>, focus: Seq<Span>, day_start: int, day_end: int) -> int
    decreases active.len(),
{
    if active.len() == 0 {
        0
    } else {
        let a = active.last();
        let lo = max_int(day_start, a.0 as int);
        let hi = min_int(day_end, a.1 as int);
        day_switches(active.drop_last(), focus, day_start, day_end) + if hi <= lo {
            0
        } else {
            window_switches(focus, lo, hi, None)
        }
    }
}

proof fn lemma_window_switches_bounded(focus: Seq<Span>, a_start: int, a_end: int, prev: Option<Seq<char>>)
    ensures
        0 <= window_switches(focus, a_start, a_end, prev) <= focus.len(),
    decreases focus.len(),
{
    if focus.len() > 0 {
        lemma_window_switches_bounded(focus.drop_first(), a_start, a_end, prev);
        lemma_window_switches_bounded(focus.drop_first(), a_start, a_end, Some(focus[0].key@));
    }
}

proof fn lemma_day_switches_bounded(active: Seq<(i64, i64)>, focus: Seq<Span>, day_start: int, day_end: int)
    ensures
        0 <= day_switches(active, focus, day_start, day_end) <= active.len() * focus.len(),
    decreases active.len(),
{
    if active.len() > 0 {
        lemma_day_switches_bounded(active.drop_last(), focus, day_start, day_end);
        let a = active.last();
        lemma_window_switches_bounded(focus, max_int(day_start, a.0 as int), min_int(day_end, a.1 as int), None);
        assert((active.len() - 1) * focus.len() + focus.len() == active.len() * focus.len()) by (nonlinear_arith);
    }
}

fn count_window_switches(focus: &Vec<Span>, a_start: i64, a_end: i64) -> (r: i64)
    requires
        focus@.len() <= i64::MAX,
    ensures
        r == window_switches(focus@, a_start as int, a_end as int, None),
{
    let mut count: i64 = 0;
    let mut prev: Option<Vec<char>> = None;
    let mut i: usize = 0;
    let ghost total = window_switches(focus@, a_start as int, a_end as int, None);
    proof {
        assert(focus@.subrange(0, focus@.len() as int) =~= focus@);
    }
    while i < focus.len()
        invariant
            i <= focus@.len(),
            focus@.len() <= i64::MAX,
            0 <= count <= i,
            total == window_switches(focus@, a_start as int, a_end as int, None),
            total == count + window_switches(
                focus@.subrange(i as int, focus@.len() as int),
                a_start as int,
                a_end as int,
                match prev {
                    Some(p) => Some(p@),
                    None => None,
                },
            ),
        decreases focus@.len() - i,
    {
        let f = &focus[i];
        let ghost rest = focus@.subrange(i as int, focus@.len() as int);
        proof {
            assert(rest[0] == focus@[i as int]);
            assert(rest.drop_first() =~= focus@.subrange(i + 1, focus@.len() as int));
        }
        if f.start >= a_end {
            proof {
                let pv = match prev {
                    Some(p) => Some(p@),
                    None => None,
                };
                assert(window_switches(rest, a_start as int, a_end as int, pv) == 0);
            }
            return count;
        }
        if f.end > a_start {
            let name = chars_of(f.key.as_str());
            let differs = match &prev {
                Some(p) => !eq_ignore_ascii_case(p, &name),
                None => false,
            };
            if differs {
                count = count + 1;
            }
            prev = Some(name);
        }
        i += 1;
    }
    proof {
        assert(focus@.subrange(focus@.len() as int, focus@.len() as int) =~= Seq::<Span>::empty());
    }
    count
}

/// Active switches of local date `d` in time zone `zone`.
#[verifier::opaque]
pub open spec fn day_switch_count(zone: TimeZoneContext, active: Seq<(i64, i64)>, focus: Seq<Span>, d: int) -> int {
    day_switches(active, focus, zone.day_start(d), zone.day_end(d))
}

/// The active switch count of each local date from `first_day` to `last_day`.
/// `active` holds the active-presence intervals and `focus` the focus spans that
/// overlap the range, both ordered by start.
pub fn active_switch_counts(
    first_day: i64,
    last_day: i64,
    active: &Vec<(i64, i64)>,
    focus: &Vec<Span>,
    zone: &TimeZoneContext,
) -> (r: Result<Vec<i64>, ZoneError>)
    requires
        zone.wf(),
        active@.len() * focus@.len() <= i64::MAX,
    ensures
        match r {
            Ok(counts) => counts@.len() == (if last_day >= first_day { last_day - first_day + 1 } else { 0 })
                && forall|k: int|
                0 <= k < counts@.len() ==> (#[trigger] counts@[k]) == day_switch_count(*zone, active@, focus@, first_day + k),
            Err(_) => exists|d: int| first_day <= d <= last_day && !#[trigger] zone.knows_day(d),
        },
{
    let mut counts: Vec<i64> = Vec::new();
    if last_day < first_day {
        return Ok(counts);
    }
    let mut date: i64 = first_day;
    proof {
        if focus@.len() > 0 {
            assert(active@.len() <= active@.len() * focus@.len()) by (nonlinear_arith)
                requires focus@.len() >= 1;
        }
    }
    loop
        invariant_except_break
            first_day <= date <= last_day,
            counts@.len() == date - first_day,
        invariant
            zone.wf(),
            first_day <= last_day,
            active@.len() * focus@.len() <= i64::MAX,
            forall|k: int|
                0 <= k < counts@.len() ==> (#[trigger] counts@[k]) == day_switch_count(*zone, active@, focus@, first_day + k),
        ensures
            counts@.len() == last_day - first_day + 1,
        decreases last_day - date,
    {
        let (day_start, day_end) = match zone.day_bounds(date) {
            Ok(b) => b,
            Err(e) => {
                return Err(e);
            },
        };
        let mut count: i64 = 0;
        let mut j: usize = 0;
        while j < active.len()
            invariant
                j <= active@.len(),
                zone.wf(),
                first_day <= date <= last_day,
                counts@.len() == date - first_day,
                zone.knows_day(date as int),
                day_start == zone.day_start(date as int),
                day_end == zone.day_end(date as int),
                forall|k: int|
                    0 <= k < counts@.len() ==> (#[trigger] counts@[k]) == day_switch_count(*zone, active@, focus@, first_day + k),
                active@.len() * focus@.len() <= i64::MAX,
                count == day_switches(active@.subrange(0, j as int), focus@, day_start as int, day_end as int),
            decreases active@.len() - j,
        {
            let (p_start, p_end) = active[j];
            let lo = if day_start >= p_start {
                day_start
            } else {
                p_start
            };
            let hi = if day_end <= p_end {
                day_end
            } else {
                p_end
            };
            proof {
                let p = active@.subrange(0, j + 1);
                assert(p.drop_last() =~= active@.subrange(0, j as int));
                assert(p.last() == active@[j as int]);
                lemma_day_switches_bounded(p, focus@, day_start as int, day_end as int);
                assert((j + 1) * focus@.len() <= active@.len() * focus@.len()) by (nonlinear_arith)
                    requires j + 1 <= active@.len();
                lemma_window_switches_bounded(focus@, lo as int, hi as int, None);
                assert(focus@.len() <= active@.len() * focus@.len()) by (nonlinear_arith)
                    requires active@.len() >= 1;
            }
            if hi > lo {
                let w = count_window_switches(focus, lo, hi);
                count = count + w;
            }
            j += 1;
        }
        proof {
            assert(active@.subrange(0, active@.len() as int) =~= active@);
        }
        let ghost before = counts@;
        counts.push(count);
        proof {
            reveal(day_switch_count);
            assert forall|k: int| 0 <= k < counts@.len() implies (#[trigger] counts@[k]) == day_switch_count(*zone, active@, focus@, first_day + k) by {
                if k < before.len() {
                    assert(counts@[k] == before[k]);
                } else {
                    assert(first_day + k == date);
                }
            }
        }
        if date == last_day {
            break;
        }
        date = date + 1;
    }
    Ok(counts)
}

// ---------------------------------------------------------------------------
// Focus statistics
// ---------------------------------------------------------------------------

/// A presence segment of the day timeline.
#[derive(Clone, Copy, Debug)]
pub struct PresenceSpan {
    pub state: PresenceState,
    pub start: i64,
    pub end: i64,
}

/// Focus statistics of one day.
#[derive(Clone, Copy, Debug, PartialEq, Eq, Structural)]
pub struct FocusStats {
    pub total_focus_seconds: i64,
    pub total_active_seconds: i64,
    pub switch_count: i64,
    pub longest_focus_block_seconds: i64,
    pub average_focus_block_seconds: i64,
    pub foreground_seconds: i64,
    pub active_foreground_seconds: i64,
    pub active_switch_count: i64,
    pub longest_active_block_seconds: i64,
    pub average_active_block_seconds: i64,
}

/// Seconds from `start` to `end`, none when it ends first.
pub open spec fn pos_len(start: int, end: int) -> int {
    if end > start {
        end - start
    } else {
        0
    }
}

pub open spec fn sum_ints(v: Seq<int>) -> int
    decreases v.len(),
{
    if v.len() == 0 {
        0
    } else {
        sum_ints(v.drop_last()) + v.last()
    }
}

/// The largest element, 0 for none.
pub open spec fn max_or_zero(v: Seq<int>) -> int
    decreases v.len(),
{
    if v.len() == 0 {
        0
    } else {
        max_int(max_or_zero(v.drop_last()), v.last())
    }
}

/// The mean rounded down (of non-negative values), 0 for none.
pub open spec fn average(v: Seq<int>) -> int {
    if v.len() == 0 {
        0
    } else {
        sum_ints(v) / (v.len() as int)
    }
}

/// Lengths of the focus spans that last at least a second.
pub open spec fn focus_lengths(f: Seq<Span>) -> Seq<int>
    decreases f.len(),
{
    if f.len() == 0 {
        Seq::empty()
    } else {
        let prev = focus_lengths(f.drop_last());
        let l = pos_len(f.last().start as int, f.last().end as int);
        if l > 0 {
            prev.push(l)
        } else {
            prev
        }
    }
}

/// Seconds the presence spans spend in the active state.
pub open spec fn active_presence_seconds(p: Seq<PresenceSpan>) -> int
    decreases p.len(),
{
    if p.len() == 0 {
        0
    } else {
        active_presence_seconds(p.drop_last()) + if p.last().state == PresenceState::Active {
            pos_len(p.last().start as int, p.last().end as int)
        } else {
            0
        }
    }
}

/// The overlaps of the focus spans with one active window, in order.
pub open spec fn window_pieces(f: Seq<Span>, ps: int, pe: int) -> Seq<int>
    decreases f.len(),
{
    if f.len() == 0 {
        Seq::empty()
    } else {
        let prev = window_pieces(f.drop_last(), ps, pe);
        let st = max_int(f.last().start as int, ps);
        let en = min_int(f.last().end as int, pe);
        if en > st {
            prev.push(en - st)
        } else {
            prev
        }
    }
}

/// Switches between the focus spans that overlap one active window: each
/// overlapping span whose process differs (ignoring ASCII case) from the previous
/// overlapping one.
pub open spec fn window_changes(f: Seq<Span>, ps: int, pe: int, prev: Option<Seq<char>>) -> int
    decreases f.len(),
{
    if f.len() == 0 {
        0
    } else {
        let x = f[0];
        if min_int(x.end as int, pe) > max_int(x.start as int, ps) {
            (if (prev matches Some(p) && !eq_ignore_case_spec(p, x.key@)) {
                1int
            } else {
                0int
            }) + window_changes(f.drop_first(), ps, pe, Some(x.key@))
        } else {
            window_changes(f.drop_first(), ps, pe, prev)
        }
    }
}

/// The active blocks: overlaps of focus spans with each active presence span, in order.
pub open spec fn active_blocks(p: Seq<PresenceSpan>, f: Seq<Span>) -> Seq<int>
    decreases p.len(),
{
    if p.len() == 0 {
        Seq::empty()
    } else {
        let prev = active_blocks(p.drop_last(), f);
        let q = p.last();
        if q.state == PresenceState::Active {
            prev + window_pieces(f, q.start as int, q.end as int)
        } else {
            prev
        }
    }
}

/// The active switches: within each active presence span, the changes of process.
pub open spec fn active_changes(p: Seq<PresenceSpan>, f: Seq<Span>) -> int
    decreases p.len(),
{
    if p.len() == 0 {
        0
    } else {
        let q = p.last();
        active_changes(p.drop_last(), f) + if q.state == PresenceState::Active {
            window_changes(f, q.start as int, q.end as int, None)
        } else {
            0
        }
    }
}

/// All bounds are valid instants.
pub open spec fn spans_valid(p: Seq<PresenceSpan>, f: Seq<Span>) -> bool {
    &&& forall|i: int| 0 <= i < p.len() ==> valid_instant((#[trigger] p[i]).start as int) && valid_instant(p[i].end as int)
    &&& forall|i: int| 0 <= i < f.len() ==> valid_instant((#[trigger] f[i]).start as int) && valid_instant(f[i].end as int)
}

pub open spec fn stats_spec(p: Seq<PresenceSpan>, f: Seq<Span>) -> FocusStats {
    let lengths = focus_lengths(f);
    let blocks = active_blocks(p, f);
    FocusStats {
        total_focus_seconds: sum_ints(lengths) as i64,
        total_active_seconds: active_presence_seconds(p) as i64,
        switch_count: if f.len() == 0 { 0 } else { (f.len() - 1) as i64 },
        longest_focus_block_seconds: max_or_zero(lengths) as i64,
        average_focus_block_seconds: average(lengths) as i64,
        foreground_seconds: sum_ints(lengths) as i64,
        active_foreground_seconds: sum_ints(blocks) as i64,
        active_switch_count: active_changes(p, f) as i64,
        longest_active_block_seconds: max_or_zero(blocks) as i64,
        average_active_block_seconds: average(blocks) as i64,
    }
}

/// The totals stay within `i64`.
pub open spec fn stats_fit(p: Seq<PresenceSpan>, f: Seq<Span>) -> bool {
    &&& spans_valid(p, f)
    &&& sum_ints(focus_lengths(f)) <= i64::MAX
    &&& sum_ints(active_blocks(p, f)) <= i64::MAX
    &&& active_presence_seconds(p) <= i64::MAX
    &&& p.len() * f.len() <= i64::MAX
}

pub open spec fn ints_of(v: Seq<i64>) -> Seq<int> {
    v.map_values(|x: i64| x as int)
}

proof fn lemma_sum_positive_prefix(v: Seq<int>, i: int)
    requires
        0 <= i <= v.len(),
        forall|k: int| 0 <= k < v.len() ==> #[trigger] v[k] > 0,
    ensures
        0 <= sum_ints(v.subrange(0, i)) <= sum_ints(v),
        i < v.len() ==> sum_ints(v.subrange(0, i)) + v[i] <= sum_ints(v),
        max_or_zero(v.subrange(0, i)) <= sum_ints(v.subrange(0, i)),
        max_or_zero(v.subrange(0, i)) >= 0,
    decreases v.len() - i,
{
    if i < v.len() {
        lemma_sum_positive_prefix(v, i + 1);
        let p = v.subrange(0, i + 1);
        assert(p.drop_last() =~= v.subrange(0, i));
        assert(p.last() == v[i]);
    } else {
        assert(v.subrange(0, i) =~= v);
    }
    lemma_max_le_sum(v.subrange(0, i));
}

proof fn lemma_len_le_sum(v: Seq<int>)
    requires
        forall|k: int| 0 <= k < v.len() ==> #[trigger] v[k] > 0,
    ensures
        v.len() <= sum_ints(v),
    decreases v.len(),
{
    if v.len() > 0 {
        let d = v.drop_last();
        assert forall|k: int| 0 <= k < d.len() implies #[trigger] d[k] > 0 by {
            assert(d[k] == v[k]);
        }
        lemma_len_le_sum(d);
    }
}

proof fn lemma_max_le_sum(v: Seq<int>)
    requires
        forall|k: int| 0 <= k < v.len() ==> #[trigger] v[k] > 0,
    ensures
        0 <= max_or_zero(v) <= sum_ints(v),
    decreases v.len(),
{
    if v.len() > 0 {
        let d = v.drop_last();
        assert forall|k: int| 0 <= k < d.len() implies #[trigger] d[k] > 0 by {
            assert(d[k] == v[k]);
        }
        lemma_max_le_sum(d);
    }
}

/// Sum, maximum and mean (rounded down) of positive lengths.
fn summarize_lengths(v: &Vec<i64>) -> (r: (i64, i64, i64))
    requires
        forall|k: int| 0 <= k < v@.len() ==> #[trigger] v@[k] > 0,
        sum_ints(ints_of(v@)) <= i64::MAX,
    ensures
        r.0 == sum_ints(ints_of(v@)),
        r.1 == max_or_zero(ints_of(v@)),
        r.2 == average(ints_of(v@)),
{
    let ghost w = ints_of(v@);
    proof {
        assert forall|k: int| 0 <= k < w.len() implies #[trigger] w[k] > 0 by {
            assert(w[k] == v@[k] as int);
        }
    }
    let mut total: i64 = 0;
    let mut longest: i64 = 0;
    let mut i: usize = 0;
    while i < v.len()
        invariant
            i <= v@.len(),
            w == ints_of(v@),
            forall|k: int| 0 <= k < w.len() ==> #[trigger] w[k] > 0,
            sum_ints(w) <= i64::MAX,
            total == sum_ints(w.subrange(0, i as int)),
            longest == max_or_zero(w.subrange(0, i as int)),
        decreases v@.len() - i,
    {
        proof {
            lemma_sum_positive_prefix(w, i as int);
            let p = w.subrange(0, i + 1);
            assert(p.drop_last() =~= w.subrange(0, i as int));
            assert(p.last() == w[i as int]);
            assert(w[i as int] == v@[i as int] as int);
        }
        total = total + v[i];
        if v[i] > longest {
            longest = v[i];
        }
        i += 1;
    }
    proof {
        assert(w.subrange(0, w.len() as int) =~= w);
        lemma_len_le_sum(w);
    }
    let avg: i64 = if v.len() == 0 {
        0
    } else {
        total / (v.len() as i64)
    };
    (total, longest, avg)
}

/// Focus statistics of a day timeline: the focus spans (bounded to the day, ordered
/// by start) and the presence spans. Switches count every change between
/// consecutive focus spans; active blocks are the overlaps of focus spans with
/// active presence, and active switches the process changes inside each active
/// presence span.
pub fn focus_stats(presence: &Vec<PresenceSpan>, focus: &Vec<Span>) -> (r: FocusStats)
    requires
        stats_fit(presence@, focus@),
    ensures
        r == stats_spec(presence@, focus@),
{
    let lengths = collect_focus_lengths(focus);
    let (total_focus, longest_focus, average_focus) = summarize_lengths(&lengths);
    let total_active = active_seconds_of(presence);
    let (blocks, changes) = collect_active_blocks(presence, focus);
    let (active_total, active_longest, active_average) = summarize_lengths(&blocks);
    let switch_count: i64 = if focus.len() == 0 {
        0
    } else {
        (focus.len() - 1) as i64
    };
    FocusStats {
        total_focus_seconds: total_focus,
        total_active_seconds: total_active,
        switch_count,
        longest_focus_block_seconds: longest_focus,
        average_focus_block_seconds: average_focus,
        foreground_seconds: total_focus,
        active_foreground_seconds: active_total,
        active_switch_count: changes,
        longest_active_block_seconds: active_longest,
        average_active_block_seconds: active_average,
    }
}

fn collect_focus_lengths(focus: &Vec<Span>) -> (r: Vec<i64>)
    requires
        spans_valid(Seq::empty(), focus@),
    ensures
        ints_of(r@) == focus_lengths(focus@),
        forall|k: int| 0 <= k < r@.len() ==> #[trigger] r@[k] > 0,
{
    let mut out: Vec<i64> = Vec::new();
    let mut i: usize = 0;
    while i < focus.len()
        invariant
            i <= focus@.len(),
            spans_valid(Seq::empty(), focus@),
            ints_of(out@) == focus_lengths(focus@.subrange(0, i as int)),
            forall|k: int| 0 <= k < out@.len() ==> #[trigger] out@[k] > 0,
        decreases focus@.len() - i,
    {
        let f = &focus[i];
        proof {
            let p = focus@.subrange(0, i + 1);
            assert(p.drop_last() =~= focus@.subrange(0, i as int));
            assert(p.last() == focus@[i as int]);
        }
        if f.end > f.start {
            let ghost before = out@;
            out.push(f.end - f.start);
            proof {
                assert(ints_of(out@) =~= ints_of(before).push(f.end - f.start));
            }
        }
        i += 1;
    }
    proof {
        assert(focus@.subrange(0, focus@.len() as int) =~= focus@);
    }
    out
}

fn active_seconds_of(presence: &Vec<PresenceSpan>) -> (r: i64)
    requires
        spans_valid(presence@, Seq::empty()),
        active_presence_seconds(presence@) <= i64::MAX,
    ensures
        r == active_presence_seconds(presence@),
{
    let mut total: i64 = 0;
    let mut i: usize = 0;
    while i < presence.len()
        invariant
            i <= presence@.len(),
            spans_valid(presence@, Seq::empty()),
            active_presence_seconds(presence@) <= i64::MAX,
            total == active_presence_seconds(presence@.subrange(0, i as int)),
        decreases presence@.len() - i,
    {
        let q = presence[i];
        proof {
            let p = presence@.subrange(0, i + 1);
            assert(p.drop_last() =~= presence@.subrange(0, i as int));
            assert(p.last() == q);
            lemma_active_seconds_prefix(presence@, i + 1);
        }
        if q.state == PresenceState::Active && q.end > q.start {
            total = total + (q.end - q.start);
        }
        i += 1;
    }
    proof {
        assert(presence@.subrange(0, presence@.len() as int) =~= presence@);
    }
    total
}

proof fn lemma_active_seconds_prefix(p: Seq<PresenceSpan>, i: int)
    requires
        0 <= i <= p.len(),
    ensures
        0 <= active_presence_seconds(p.subrange(0, i)) <= active_presence_seconds(p),
    decreases p.len() - i,
{
    if i < p.len() {
        lemma_active_seconds_prefix(p, i + 1);
        assert(p.subrange(0, i + 1).drop_last() =~= p.subrange(0, i));
        lemma_active_seconds_nonneg(p.subrange(0, i));
    } else {
        assert(p.subrange(0, i) =~= p);
        lemma_active_seconds_nonneg(p);
    }
}

proof fn lemma_active_seconds_nonneg(p: Seq<PresenceSpan>)
    ensures
        active_presence_seconds(p) >= 0,
    decreases p.len(),
{
    if p.len() > 0 {
        lemma_active_seconds_nonneg(p.drop_last());
    }
}

proof fn lemma_window_changes_bounded(f: Seq<Span>, ps: int, pe: int, prev: Option<Seq<char>>)
    ensures
        0 <= window_changes(f, ps, pe, prev) <= f.len(),
    decreases f.len(),
{
    if f.len() > 0 {
        lemma_window_changes_bounded(f.drop_first(), ps, pe, prev);
        lemma_window_changes_bounded(f.drop_first(), ps, pe, Some(f[0].key@));
    }
}

proof fn lemma_active_changes_bounded(p: Seq<PresenceSpan>, f: Seq<Span>)
    ensures
        0 <= active_changes(p, f) <= p.len() * f.len(),
    decreases p.len(),
{
    if p.len() > 0 {
        lemma_active_changes_bounded(p.drop_last(), f);
        let q = p.last();
        lemma_window_changes_bounded(f, q.start as int, q.end as int, None);
        assert((p.len() - 1) * f.len() + f.len() == p.len() * f.len()) by (nonlinear_arith);
    }
}

proof fn lemma_active_blocks_prefix(p: Seq<PresenceSpan>, f: Seq<Span>, i: int)
    requires
        0 <= i <= p.len(),
    ensures
        active_blocks(p.subrange(0, i), f).len() <= active_blocks(p, f).len(),
        forall|k: int| 0 <= k < active_blocks(p.subrange(0, i), f).len() ==> active_blocks(p.subrange(0, i), f)[k]
            == #[trigger] active_blocks(p, f)[k],
    decreases p.len() - i,
{
    if i < p.len() {
        lemma_active_blocks_prefix(p, f, i + 1);
        assert(p.subrange(0, i + 1).drop_last() =~= p.subrange(0, i));
    } else {
        assert(p.subrange(0, i) =~= p);
    }
}

proof fn lemma_sum_prefix_le(v: Seq<int>, w: Seq<int>)
    requires
        v.len() <= w.len(),
        forall|k: int| 0 <= k < v.len() ==> v[k] == #[trigger] w[k],
        forall|k: int| 0 <= k < w.len() ==> #[trigger] w[k] > 0,
    ensures
        sum_ints(v) <= sum_ints(w),
{
    assert(v =~= w.subrange(0, v.len() as int));
    lemma_sum_positive_prefix(w, v.len() as int);
}

proof fn lemma_pieces_positive(f: Seq<Span>, ps: int, pe: int)
    ensures
        forall|k: int| 0 <= k < window_pieces(f, ps, pe).len() ==> #[trigger] window_pieces(f, ps, pe)[k] > 0,
    decreases f.len(),
{
    if f.len() > 0 {
        lemma_pieces_positive(f.drop_last(), ps, pe);
        let prev = window_pieces(f.drop_last(), ps, pe);
        let cur = window_pieces(f, ps, pe);
        assert forall|k: int| 0 <= k < cur.len() implies #[trigger] cur[k] > 0 by {
            if k < prev.len() {
                assert(cur[k] == prev[k]);
            }
        }
    }
}

proof fn lemma_blocks_positive(p: Seq<PresenceSpan>, f: Seq<Span>)
    ensures
        forall|k: int| 0 <= k < active_blocks(p, f).len() ==> #[trigger] active_blocks(p, f)[k] > 0,
    decreases p.len(),
{
    if p.len() > 0 {
        lemma_blocks_positive(p.drop_last(), f);
        let q = p.last();
        lemma_pieces_positive(f, q.start as int, q.end as int);
        let a = active_blocks(p.drop_last(), f);
        let b = window_pieces(f, q.start as int, q.end as int);
        if q.state == PresenceState::Active {
            assert forall|k: int| 0 <= k < (a + b).len() implies #[trigger] (a + b)[k] > 0 by {
                if k < a.len() {
                    assert((a + b)[k] == a[k]);
                } else {
                    assert((a + b)[k] == b[k - a.len()]);
                }
            }
        }
    }
}

/// The active blocks and active switches of the presence and focus spans.
fn collect_active_blocks(presence: &Vec<PresenceSpan>, focus: &Vec<Span>) -> (r: (Vec<i64>, i64))
    requires
        stats_fit(presence@, focus@),
    ensures
        ints_of(r.0@) == active_blocks(presence@, focus@),
        forall|k: int| 0 <= k < r.0@.len() ==> #[trigger] r.0@[k] > 0,
        r.1 == active_changes(presence@, focus@),
{
    let mut blocks: Vec<i64> = Vec::new();
    let mut changes: i64 = 0;
    let mut i: usize = 0;
    proof {
        lemma_blocks_positive(presence@, focus@);
    }
    while i < presence.len()
        invariant
            i <= presence@.len(),
            stats_fit(presence@, focus@),
            forall|k: int| 0 <= k < active_blocks(presence@, focus@).len() ==> #[trigger] active_blocks(presence@, focus@)[k] > 0,
            ints_of(blocks@) == active_blocks(presence@.subrange(0, i as int), focus@),
            forall|k: int| 0 <= k < blocks@.len() ==> #[trigger] blocks@[k] > 0,
            changes == active_changes(presence@.subrange(0, i as int), focus@),
            0 <= changes <= i * focus@.len(),
        decreases presence@.len() - i,
    {
        let q = presence[i];
        proof {
            let p = presence@.subrange(0, i + 1);
            assert(p.drop_last() =~= presence@.subrange(0, i as int));
            assert(p.last() == q);
            assert(valid_instant(q.start as int) && valid_instant(q.end as int));
            lemma_active_blocks_prefix(presence@, focus@, i + 1);
            lemma_window_changes_bounded(focus@, q.start as int, q.end as int, None);
            assert((i + 1) * focus@.len() <= presence@.len() * focus@.len()) by (nonlinear_arith)
                requires i + 1 <= presence@.len();
            assert(i * focus@.len() + focus@.len() == (i + 1) * focus@.len()) by (nonlinear_arith);
            assert(focus@.len() <= presence@.len() * focus@.len()) by (nonlinear_arith)
                requires presence@.len() >= 1;
        }
        if q.state == PresenceState::Active {
            let ghost base = blocks@;
            let ghost all_next = active_blocks(presence@.subrange(0, i + 1), focus@);
            proof {
                lemma_pieces_positive(focus@, q.start as int, q.end as int);
                lemma_sum_prefix_le(all_next, active_blocks(presence@, focus@));
            }
            let w = window_blocks(&mut blocks, focus, q.start, q.end, Ghost(all_next));
            changes = changes + w;
        }
        i += 1;
    }
    proof {
        assert(presence@.subrange(0, presence@.len() as int) =~= presence@);
    }
    (blocks, changes)
}

/// Appends the overlaps of the focus spans with the active window `[ps, pe)` and
/// counts the process changes among them.
fn window_blocks(blocks: &mut Vec<i64>, focus: &Vec<Span>, ps: i64, pe: i64, Ghost(bound): Ghost<Seq<int>>) -> (r: i64)
    requires
        spans_valid(Seq::empty(), focus@),
        focus@.len() <= i64::MAX,
        valid_instant(ps as int) && valid_instant(pe as int),
        forall|k: int| 0 <= k < old(blocks)@.len() ==> #[trigger] old(blocks)@[k] > 0,
        ints_of(old(blocks)@) + window_pieces(focus@, ps as int, pe as int) == bound,
        forall|k: int| 0 <= k < bound.len() ==> #[trigger] bound[k] > 0,
        sum_ints(bound) <= i64::MAX,
    ensures
        ints_of(final(blocks)@) == bound,
        forall|k: int| 0 <= k < final(blocks)@.len() ==> #[trigger] final(blocks)@[k] > 0,
        r == window_changes(focus@, ps as int, pe as int, None),
{
    let ghost base = ints_of(blocks@);
    let ghost total = window_changes(focus@, ps as int, pe as int, None);
    let mut count: i64 = 0;
    let mut prev: Option<Vec<char>> = None;
    let mut j: usize = 0;
    proof {
        assert(focus@.subrange(0, focus@.len() as int) =~= focus@);
        assert(focus@.subrange(0, 0) =~= Seq::<Span>::empty());
        assert(ints_of(blocks@) =~= base + window_pieces(focus@.subrange(0, 0), ps as int, pe as int));
        lemma_window_changes_bounded(focus@, ps as int, pe as int, None);
    }
    while j < focus.len()
        invariant
            j <= focus@.len(),
            focus@.len() <= i64::MAX,
            spans_valid(Seq::empty(), focus@),
            valid_instant(ps as int) && valid_instant(pe as int),
            base + window_pieces(focus@, ps as int, pe as int) == bound,
            forall|k: int| 0 <= k < bound.len() ==> #[trigger] bound[k] > 0,
            sum_ints(bound) <= i64::MAX,
            ints_of(blocks@) == base + window_pieces(focus@.subrange(0, j as int), ps as int, pe as int),
            forall|k: int| 0 <= k < blocks@.len() ==> #[trigger] blocks@[k] > 0,
            total == window_changes(focus@, ps as int, pe as int, None),
            0 <= total <= focus@.len(),
            0 <= count <= j,
            total == count + window_changes(
                focus@.subrange(j as int, focus@.len() as int),
                ps as int,
                pe as int,
                match prev {
                    Some(p) => Some(p@),
                    None => None,
                },
            ),
        decreases focus@.len() - j,
    {
        let f = &focus[j];
        proof {
            let p = focus@.subrange(0, j + 1);
            assert(p.drop_last() =~= focus@.subrange(0, j as int));
            assert(p.last() == focus@[j as int]);
            let rest = focus@.subrange(j as int, focus@.len() as int);
            assert(rest[0] == focus@[j as int]);
            assert(rest.drop_first() =~= focus@.subrange(j + 1, focus@.len() as int));
            lemma_window_changes_bounded(rest.drop_first(), ps as int, pe as int, Some(f.key@));
        }
        let st = if f.start >= ps {
            f.start
        } else {
            ps
        };
        let en = if f.end <= pe {
            f.end
        } else {
            pe
        };
        if en > st {
            let ghost before = blocks@;
            proof {
                assert(valid_instant(f.start as int) && valid_instant(f.end as int));
            }
            blocks.push(en - st);
            proof {
                assert(ints_of(blocks@) =~= ints_of(before).push(en - st));
                let cur = window_pieces(focus@.subrange(0, j + 1), ps as int, pe as int);
                assert(cur.last() == en - st);
                assert(ints_of(blocks@) =~= base + cur);
                assert(blocks@[blocks@.len() - 1] == en - st);
            }
            let name = chars_of(f.key.as_str());
            let differs = match &prev {
                Some(p) => !eq_ignore_ascii_case(p, &name),
                None => false,
            };
            if differs {
                count = count + 1;
            }
            prev = Some(name);
        }
        j += 1;
    }
    proof {
        assert(focus@.subrange(focus@.len() as int, focus@.len() as int) =~= Seq::<Span>::empty());
    }
    count
}

// ---------------------------------------------------------------------------
// Application and domain statistics
// ---------------------------------------------------------------------------

/// One application's (or domain's) usage on a day: raw and active seconds.
#[derive(Clone, Debug)]
pub struct UsageStat {
    pub key: String,
    pub label: String,
    pub seconds: i64,
    pub active_seconds: i64,
}

/// Statistics order: more active seconds first, then more seconds, then keys in
/// ascending order.
pub open spec fn stat_before(a: UsageStat, b: UsageStat) -> bool {
    a.active_seconds > b.active_seconds || (a.active_seconds == b.active_seconds && (a.seconds > b.seconds || (
    a.seconds == b.seconds && lex_lt(a.key@, b.key@))))
}

/// The last row of `key`.
pub open spec fn last_stat(rows: Seq<UsageStat>, key: Seq<char>) -> Option<UsageStat>
    decreases rows.len(),
{
    if rows.len() == 0 {
        None
    } else if rows.last().key@ == key {
        Some(rows.last())
    } else {
        last_stat(rows.drop_last(), key)
    }
}

/// The statistics of a day's rows: one entry per key, the values of its last row,
/// in statistics order.
pub open spec fn stats_ranked(rows: Seq<UsageStat>, r: Seq<UsageStat>) -> bool {
    &&& forall|i: int, j: int| 0 <= i < j < r.len() ==> stat_before(#[trigger] r[i], #[trigger] r[j])
    &&& forall|i: int| 0 <= i < r.len() ==> last_stat(rows, (#[trigger] r[i]).key@) == Some(r[i])
    &&& forall|k: int| 0 <= k < rows.len() ==> stat_keyed(r, (#[trigger] rows[k]).key@)
}

/// Sum of raw and of active seconds.
pub open spec fn stat_totals(rows: Seq<UsageStat>) -> (int, int)
    decreases rows.len(),
{
    if rows.len() == 0 {
        (0, 0)
    } else {
        let t = stat_totals(rows.drop_last());
        (t.0 + rows.last().seconds, t.1 + rows.last().active_seconds)
    }
}

pub open spec fn stat_magnitude(rows: Seq<UsageStat>) -> int
    decreases rows.len(),
{
    if rows.len() == 0 {
        0
    } else {
        stat_magnitude(rows.drop_last()) + abs(rows.last().seconds as int) + abs(rows.last().active_seconds as int)
    }
}

proof fn lemma_stat_totals_bounded(rows: Seq<UsageStat>)
    ensures
        abs(stat_totals(rows).0) + abs(stat_totals(rows).1) <= stat_magnitude(rows),
    decreases rows.len(),
{
    if rows.len() > 0 {
        lemma_stat_totals_bounded(rows.drop_last());
    }
}

proof fn lemma_stat_magnitude_prefix(rows: Seq<UsageStat>, i: int)
    requires
        0 <= i <= rows.len(),
    ensures
        stat_magnitude(rows.subrange(0, i)) <= stat_magnitude(rows),
    decreases rows.len() - i,
{
    if i < rows.len() {
        lemma_stat_magnitude_prefix(rows, i + 1);
        assert(rows.subrange(0, i + 1).drop_last() =~= rows.subrange(0, i));
        lemma_stat_totals_bounded(rows.subrange(0, i));
    } else {
        assert(rows.subrange(0, i) =~= rows);
    }
}

/// The raw and active totals of the rows.
pub fn usage_totals(rows: &Vec<UsageStat>) -> (r: (i64, i64))
    requires
        stat_magnitude(rows@) <= i64::MAX,
    ensures
        (r.0 as int, r.1 as int) == stat_totals(rows@),
{
    let mut total: i64 = 0;
    let mut active: i64 = 0;
    let mut i: usize = 0;
    while i < rows.len()
        invariant
            i <= rows@.len(),
            stat_magnitude(rows@) <= i64::MAX,
            (total as int, active as int) == stat_totals(rows@.subrange(0, i as int)),
        decreases rows@.len() - i,
    {
        proof {
            let p = rows@.subrange(0, i + 1);
            assert(p.drop_last() =~= rows@.subrange(0, i as int));
            assert(p.last() == rows@[i as int]);
            lemma_stat_magnitude_prefix(rows@, i + 1);
            lemma_stat_totals_bounded(p);
        }
        total = total + rows[i].seconds;
        active = active + rows[i].active_seconds;
        i += 1;
    }
    proof {
        assert(rows@.subrange(0, rows@.len() as int) =~= rows@);
    }
    (total, active)
}

proof fn lemma_stat_total_order(a: UsageStat, b: UsageStat)
    requires
        a.key@ != b.key@,
        !stat_before(a, b),
    ensures
        stat_before(b, a),
{
    if a.active_seconds == b.active_seconds && a.seconds == b.seconds {
        lemma_lex_total(a.key@, b.key@);
    }
}

proof fn lemma_stat_transitive(a: UsageStat, b: UsageStat, c: UsageStat)
    requires
        stat_before(a, b),
        stat_before(b, c),
    ensures
        stat_before(a, c),
{
    if a.active_seconds == b.active_seconds && b.active_seconds == c.active_seconds && a.seconds == b.seconds
        && b.seconds == c.seconds {
        lemma_lex_transitive(a.key@, b.key@, c.key@);
    }
}

/// `last_stat` over the rows from `i` on, for a key none of them before `k` has.
proof fn lemma_last_stat_suffix(rows: Seq<UsageStat>, i: int, key: Seq<char>)
    requires
        0 <= i <= rows.len(),
        forall|k: int| i <= k < rows.len() ==> (#[trigger] rows[k]).key@ != key,
    ensures
        last_stat(rows, key) == last_stat(rows.subrange(0, i), key),
    decreases rows.len() - i,
{
    if i < rows.len() {
        lemma_last_stat_suffix(rows, i + 1, key);
        let p = rows.subrange(0, i + 1);
        assert(p.drop_last() =~= rows.subrange(0, i));
        assert(p.last() == rows[i]);
    } else {
        assert(rows.subrange(0, i) =~= rows);
    }
}

/// Some entry has `key`.
pub open spec fn stat_keyed(out: Seq<UsageStat>, key: Seq<char>) -> bool {
    exists|a: int| 0 <= a < out.len() && (#[trigger] out[a]).key@ == key
}

/// Some row from index `i` on has `key`.
pub open spec fn keyed_from(rows: Seq<UsageStat>, i: int, key: Seq<char>) -> bool {
    exists|k: int| i <= k < rows.len() && (#[trigger] rows[k]).key@ == key
}

/// The state while ranking from the end: `out` holds, in statistics order, one entry
/// for each key of `rows[i..]`, the values of the key's last row.
pub open spec fn stats_state(rows: Seq<UsageStat>, i: int, out: Seq<UsageStat>) -> bool {
    &&& 0 <= i <= rows.len()
    &&& forall|a: int, b: int| 0 <= a < b < out.len() ==> stat_before(#[trigger] out[a], #[trigger] out[b])
    &&& forall|a: int| 0 <= a < out.len() ==> last_stat(rows, (#[trigger] out[a]).key@) == Some(out[a])
    &&& forall|a: int| 0 <= a < out.len() ==> keyed_from(rows, i, (#[trigger] out[a]).key@)
    &&& forall|k: int| i <= k < rows.len() ==> stat_keyed(out, (#[trigger] rows[k]).key@)
}

proof fn lemma_stats_insert(rows: Seq<UsageStat>, i: int, out: Seq<UsageStat>, p: int)
    requires
        0 < i <= rows.len(),
        stats_state(rows, i, out),
        !stat_keyed(out, rows[i - 1].key@),
        0 <= p <= out.len(),
        forall|a: int| 0 <= a < p ==> stat_before(#[trigger] out[a], rows[i - 1]),
        p < out.len() ==> !stat_before(out[p], rows[i - 1]),
    ensures
        stats_state(rows, i - 1, out.insert(p, rows[i - 1])),
{
    let x = rows[i - 1];
    let no = out.insert(p, x);
    assert forall|a: int| p <= a < out.len() implies stat_before(x, #[trigger] out[a]) by {
        assert(out[p].key@ != x.key@);
        lemma_stat_total_order(out[p], x);
        if a > p {
            lemma_stat_transitive(x, out[p], out[a]);
        }
    }
    assert forall|a: int, b: int| 0 <= a < b < no.len() implies stat_before(#[trigger] no[a], #[trigger] no[b]) by {
        if b < p {
            assert(no[a] == out[a] && no[b] == out[b]);
        } else if b == p {
            assert(no[a] == out[a]);
        } else if a < p {
            assert(no[a] == out[a] && no[b] == out[b - 1]);
            lemma_stat_transitive(out[a], x, out[b - 1]);
        } else if a == p {
            assert(no[b] == out[b - 1]);
        } else {
            assert(no[a] == out[a - 1] && no[b] == out[b - 1]);
        }
    }
    assert(last_stat(rows, x.key@) == Some(x)) by {
        assert forall|k: int| i <= k < rows.len() implies (#[trigger] rows[k]).key@ != x.key@ by {
            assert(stat_keyed(out, rows[k].key@));
        }
        lemma_last_stat_suffix(rows, i, x.key@);
        let q = rows.subrange(0, i);
        assert(q.last() == x);
    }
    assert forall|a: int| 0 <= a < no.len() implies last_stat(rows, (#[trigger] no[a]).key@) == Some(no[a]) by {
        if a < p {
            assert(no[a] == out[a]);
        } else if a > p {
            assert(no[a] == out[a - 1]);
        }
    }
    assert forall|a: int| 0 <= a < no.len() implies keyed_from(rows, i - 1, (#[trigger] no[a]).key@) by {
        if a < p {
            assert(no[a] == out[a]);
            assert(keyed_from(rows, i, out[a].key@));
            let k = choose|k: int| i <= k < rows.len() && (#[trigger] rows[k]).key@ == out[a].key@;
        } else if a > p {
            assert(no[a] == out[a - 1]);
            assert(keyed_from(rows, i, out[a - 1].key@));
            let k = choose|k: int| i <= k < rows.len() && (#[trigger] rows[k]).key@ == out[a - 1].key@;
        } else {
            assert(rows[i - 1].key@ == no[a].key@);
        }
    }
    assert forall|k: int| i - 1 <= k < rows.len() implies stat_keyed(no, (#[trigger] rows[k]).key@) by {
        if k == i - 1 {
            assert(no[p] == x);
        } else {
            assert(stat_keyed(out, rows[k].key@));
            let a = choose|a: int| 0 <= a < out.len() && (#[trigger] out[a]).key@ == rows[k].key@;
            if a < p {
                assert(no[a] == out[a]);
            } else {
                assert(no[a + 1] == out[a]);
            }
        }
    }
}

proof fn lemma_stats_skip(rows: Seq<UsageStat>, i: int, out: Seq<UsageStat>, w: int)
    requires
        0 < i <= rows.len(),
        stats_state(rows, i, out),
        0 <= w < out.len(),
        out[w].key@ == rows[i - 1].key@,
    ensures
        stats_state(rows, i - 1, out),
{
    assert forall|a: int| 0 <= a < out.len() implies keyed_from(rows, i - 1, (#[trigger] out[a]).key@) by {
        assert(keyed_from(rows, i, out[a].key@));
        let k = choose|k: int| i <= k < rows.len() && (#[trigger] rows[k]).key@ == out[a].key@;
    }
    assert forall|k: int| i - 1 <= k < rows.len() implies stat_keyed(out, (#[trigger] rows[k]).key@) by {
        if k == i - 1 {
            assert(out[w].key@ == rows[k].key@);
        }
    }
}

fn clone_stat(s: &UsageStat) -> (r: UsageStat)
    ensures
        r == *s,
{
    UsageStat { key: s.key.clone(), label: s.label.clone(), seconds: s.seconds, active_seconds: s.active_seconds }
}

fn stat_less(a: &UsageStat, b: &UsageStat) -> (r: bool)
    ensures
        r == stat_before(*a, *b),
{
    if a.active_seconds != b.active_seconds {
        return a.active_seconds > b.active_seconds;
    }
    if a.seconds != b.seconds {
        return a.seconds > b.seconds;
    }
    lex_less(&chars_of(a.key.as_str()), &chars_of(b.key.as_str()))
}

/// A day's application (or domain) statistics: one entry per key with the values
/// of its last row, most active first, then most used, then by key.
pub fn rank_usage_stats(rows: &Vec<UsageStat>) -> (r: Vec<UsageStat>)
    ensures
        stats_ranked(rows@, r@),
{
    let mut out: Vec<UsageStat> = Vec::new();
    let mut i: usize = rows.len();
    while i > 0
        invariant
            stats_state(rows@, i as int, out@),
        decreases i,
    {
        let x = &rows[i - 1];
        let xk = chars_of(x.key.as_str());
        let ghost before = out@;
        let mut w: usize = 0;
        let mut present = false;
        while w < out.len() && !present
            invariant
                w <= out@.len(),
                xk@ == rows@[i - 1].key@,
                !present ==> forall|a: int| 0 <= a < w ==> (#[trigger] out@[a]).key@ != xk@,
                present ==> w > 0 && out@[w - 1].key@ == xk@,
            decreases out@.len() - w,
        {
            if seq_equal(&chars_of(out[w].key.as_str()), &xk) {
                present = true;
            }
            w += 1;
        }
        if present {
            proof {
                lemma_stats_skip(rows@, i as int, out@, w - 1);
            }
        } else {
            let mut p: usize = 0;
            while p < out.len() && stat_less(&out[p], x)
                invariant
                    0 < i <= rows@.len(),
                    *x == rows@[i - 1],
                    p <= out@.len(),
                    forall|a: int| 0 <= a < p ==> stat_before(#[trigger] out@[a], rows@[i - 1]),
                decreases out@.len() - p,
            {
                p += 1;
            }
            proof {
                assert(!stat_keyed(out@, rows@[i - 1].key@)) by {
                    if stat_keyed(out@, rows@[i - 1].key@) {
                        let a = choose|a: int| 0 <= a < out@.len() && (#[trigger] out@[a]).key@ == rows@[i - 1].key@;
                        assert(out@[a].key@ != xk@);
                    }
                }
                lemma_stats_insert(rows@, i as int, out@, p as int);
            }
            out.insert(p, clone_stat(x));
        }
        i -= 1;
    }
    out
}

// ---------------------------------------------------------------------------
// Reading usage rows
// ---------------------------------------------------------------------------

/// The active seconds that go with a usage row of `date` and `key`: those of the
/// first active-usage row of the same date and key, else 0.
pub open spec fn matched_active(active: Seq<RollupRow>, date: int, key: Seq<char>) -> int
    decreases active.len(),
{
    if active.len() == 0 {
        0
    } else if active[0].date == date && active[0].key@ == key {
        active[0].seconds as int
    } else {
        matched_active(active.drop_first(), date, key)
    }
}

/// A usage row with its active seconds.
pub open spec fn stat_matches(s: UsageStat, raw: RollupRow, active: Seq<RollupRow>) -> bool {
    &&& s.key@ == raw.key@
    &&& s.label@ == raw.label@
    &&& s.seconds == raw.seconds
    &&& s.active_seconds == matched_active(active, raw.date as int, raw.key@)
}

fn find_active(active: &Vec<RollupRow>, date: i64, key: &Vec<char>) -> (r: i64)
    ensures
        r == matched_active(active@, date as int, key@),
{
    let mut j: usize = 0;
    assert(active@.subrange(0, active@.len() as int) =~= active@);
    while j < active.len()
        invariant
            j <= active@.len(),
            matched_active(active@.subrange(j as int, active@.len() as int), date as int, key@) == matched_active(
                active@,
                date as int,
                key@,
            ),
        decreases active@.len() - j,
    {
        proof {
            let rest = active@.subrange(j as int, active@.len() as int);
            assert(rest.drop_first() =~= active@.subrange(j + 1, active@.len() as int));
            assert(rest[0] == active@[j as int]);
        }
        if active[j].date == date && seq_equal(&chars_of(active[j].key.as_str()), key) {
            return active[j].seconds;
        }
        j += 1;
    }
    proof {
        assert(active@.subrange(j as int, active@.len() as int).len() == 0);
    }
    0
}

/// Pairs each usage row of a day with the active seconds of the same date and key
/// (a left join: 0 where none was active).
pub fn join_active_seconds(raw: &Vec<RollupRow>, active: &Vec<RollupRow>) -> (r: Vec<UsageStat>)
    ensures
        r@.len() == raw@.len(),
        forall|i: int| 0 <= i < r@.len() ==> stat_matches(#[trigger] r@[i], raw@[i], active@),
{
    let mut out: Vec<UsageStat> = Vec::new();
    let mut i: usize = 0;
    while i < raw.len()
        invariant
            i <= raw@.len(),
            out@.len() == i,
            forall|k: int| 0 <= k < i ==> stat_matches(#[trigger] out@[k], raw@[k], active@),
        decreases raw@.len() - i,
    {
        let key = chars_of(raw[i].key.as_str());
        let stat = UsageStat {
            key: string_from(&key),
            label: string_from(&chars_of(raw[i].label.as_str())),
            seconds: raw[i].seconds,
            active_seconds: find_active(active, raw[i].date, &key),
        };
        out.push(stat);
        i += 1;
    }
    out
}

/// `(date, seconds)` of the rows, in order, keeping only rows of key `only` when
/// one is given.
pub open spec fn date_seconds_spec(rows: Seq<RollupRow>, only: Option<Seq<char>>) -> Seq<(i64, i64)>
    decreases rows.len(),
{
    if rows.len() == 0 {
        Seq::empty()
    } else {
        let prev = date_seconds_spec(rows.drop_last(), only);
        let r = rows.last();
        if (only matches Some(k) && r.key@ != k) {
            prev
        } else {
            prev.push((r.date, r.seconds))
        }
    }
}

/// The `(date, seconds)` pairs of usage rows, restricted to key `only` when given
/// (the presence rows of the `active` state).
pub fn date_seconds(rows: &Vec<RollupRow>, only: Option<&str>) -> (r: Vec<(i64, i64)>)
    ensures
        r@ == date_seconds_spec(
            rows@,
            match only {
                Some(k) => Some(k@),
                None => None,
            },
        ),
{
    let ghost only_view = match only {
        Some(k) => Some(k@),
        None => None::<Seq<char>>,
    };
    let only_chars: Option<Vec<char>> = match only {
        Some(k) => Some(chars_of(k)),
        None => None,
    };
    let mut out: Vec<(i64, i64)> = Vec::new();
    let mut i: usize = 0;
    while i < rows.len()
        invariant
            i <= rows@.len(),
            only_view == match only {
                Some(k) => Some(k@),
                None => None::<Seq<char>>,
            },
            match only_chars {
                Some(c) => only_view == Some(c@),
                None => only_view is None,
            },
            out@ == date_seconds_spec(rows@.subrange(0, i as int), only_view),
        decreases rows@.len() - i,
    {
        proof {
            let p = rows@.subrange(0, i + 1);
            assert(p.drop_last() =~= rows@.subrange(0, i as int));
            assert(p.last() == rows@[i as int]);
        }
        let keep = match &only_chars {
            Some(c) => seq_equal(&chars_of(rows[i].key.as_str()), c),
            None => true,
        };
        if keep {
            out.push((rows[i].date, rows[i].seconds));
        }
        i += 1;
    }
    proof {
        assert(rows@.subrange(0, rows@.len() as int) =~= rows@);
    }
    out
}

/// Law: ranked usage statistics come with the most active seconds first; raw
/// seconds only order entries with equal active seconds.
pub proof fn law_usage_ranked_by_active_seconds(rows: Seq<UsageStat>, r: Seq<UsageStat>)
    requires
        stats_ranked(rows, r),
    ensures
        forall|i: int, j: int| 0 <= i < j < r.len() ==> (#[trigger] r[i]).active_seconds >= (#[trigger] r[j]).active_seconds,
        forall|i: int, j: int|
            0 <= i < j < r.len() && (#[trigger] r[i]).active_seconds == (#[trigger] r[j]).active_seconds ==> r[i].seconds
                >= r[j].seconds,
{
    assert forall|i: int, j: int| 0 <= i < j < r.len() implies (#[trigger] r[i]).active_seconds >= (#[trigger] r[j]).active_seconds by {
        assert(stat_before(r[i], r[j]));
    }
    assert forall|i: int, j: int|
        0 <= i < j < r.len() && (#[trigger] r[i]).active_seconds == (#[trigger] r[j]).active_seconds implies r[i].seconds
            >= r[j].seconds by {
        assert(stat_before(r[i], r[j]));
    }
}

proof fn lemma_lengths_positive(f: Seq<Span>)
    ensures
        forall|k: int| 0 <= k < focus_lengths(f).len() ==> #[trigger] focus_lengths(f)[k] > 0,
    decreases f.len(),
{
    if f.len() > 0 {
        lemma_lengths_positive(f.drop_last());
        let prev = focus_lengths(f.drop_last());
        let cur = focus_lengths(f);
        assert forall|k: int| 0 <= k < cur.len() implies #[trigger] cur[k] > 0 by {
            if k < prev.len() {
                assert(cur[k] == prev[k]);
            }
        }
    }
}

proof fn lemma_sum_le_count_times_max(v: Seq<int>)
    requires
        forall|k: int| 0 <= k < v.len() ==> #[trigger] v[k] > 0,
    ensures
        sum_ints(v) <= v.len() * max_or_zero(v),
    decreases v.len(),
{
    if v.len() > 0 {
        let d = v.drop_last();
        assert forall|k: int| 0 <= k < d.len() implies #[trigger] d[k] > 0 by {
            assert(d[k] == v[k]);
        }
        lemma_sum_le_count_times_max(d);
        lemma_max_le_sum(d);
        let md = max_or_zero(d);
        let mv = max_or_zero(v);
        assert(mv >= md && mv >= v.last());
        assert(d.len() * md <= d.len() * mv) by (nonlinear_arith)
            requires
                md <= mv,
                d.len() >= 0,
        ;
        assert(v.len() * mv == d.len() * mv + mv) by (nonlinear_arith)
            requires
                v.len() == d.len() + 1,
        ;
    }
}

/// The mean of positive values lies between 0 and their maximum, and splits their
/// sum by their count.
proof fn lemma_average_bounds(v: Seq<int>)
    requires
        forall|k: int| 0 <= k < v.len() ==> #[trigger] v[k] > 0,
    ensures
        0 <= average(v) <= max_or_zero(v) <= sum_ints(v),
        v.len() == 0 ==> average(v) == 0 && sum_ints(v) == 0,
        v.len() > 0 ==> average(v) * v.len() <= sum_ints(v) < (average(v) + 1) * v.len(),
{
    lemma_max_le_sum(v);
    if v.len() > 0 {
        lemma_sum_le_count_times_max(v);
        let n = v.len() as int;
        let t = sum_ints(v);
        let m = max_or_zero(v);
        assert(average(v) == t / n);
        assert(0 <= t / n <= m && (t / n) * n <= t < (t / n + 1) * n) by (nonlinear_arith)
            requires
                n > 0,
                0 <= t <= n * m,
        ;
    }
}

/// Law: of a day's focus statistics, the mean active block lies between 0 and the
/// longest active block, which is at most the active foreground time; the mean
/// is that time divided by the number of active blocks (the overlaps of focus
/// spans with active presence spans), rounded down, and 0 when there are none.
/// The same holds of the focus blocks and the foreground time.
pub proof fn law_block_averages(p: Seq<PresenceSpan>, f: Seq<Span>)
    requires
        stats_fit(p, f),
    ensures
        ({
            let r = stats_spec(p, f);
            let n = active_blocks(p, f).len() as int;
            let m = focus_lengths(f).len() as int;
            &&& 0 <= r.average_active_block_seconds <= r.longest_active_block_seconds <= r.active_foreground_seconds
            &&& n == 0 ==> r.average_active_block_seconds == 0 && r.active_foreground_seconds == 0
            &&& n > 0 ==> r.average_active_block_seconds * n <= r.active_foreground_seconds
                < (r.average_active_block_seconds + 1) * n
            &&& 0 <= r.average_focus_block_seconds <= r.longest_focus_block_seconds <= r.foreground_seconds
            &&& m == 0 ==> r.average_focus_block_seconds == 0 && r.foreground_seconds == 0
            &&& m > 0 ==> r.average_focus_block_seconds * m <= r.foreground_seconds < (r.average_focus_block_seconds
                + 1) * m
        }),
{
    lemma_blocks_positive(p, f);
    lemma_lengths_positive(f);
    lemma_average_bounds(active_blocks(p, f));
    lemma_average_bounds(focus_lengths(f));
}

/// Law: the active browser time of a day summary is taken from the active-domain
/// rows alone: summaries of the same date whose inputs have the same active-domain
/// rows agree on it, whatever their other rows.
pub proof fn law_active_browser_from_domain_rows(
    s1: DaySummary,
    in1: SummaryInputs,
    k1: i64,
    s2: DaySummary,
    in2: SummaryInputs,
    k2: i64,
    date: int,
)
    requires
        summary_matches(s1, date, in1, k1),
        summary_matches(s2, date, in2, k2),
        in1.active_domain_rows@ == in2.active_domain_rows@,
    ensures
        s1.active_browser_seconds == s2.active_browser_seconds,
{
}

/// Law: the active browser time of a day summary adds up the active-domain rows of
/// that date: it is 0 when no such row falls on the date, one more row on the date
/// adds its seconds, and a row of another date changes nothing.
pub proof fn law_active_browser_sums_the_date(
    s1: DaySummary,
    in1: SummaryInputs,
    k1: i64,
    s2: DaySummary,
    in2: SummaryInputs,
    k2: i64,
    date: int,
    row: (i64, i64),
)
    requires
        summary_matches(s1, date, in1, k1),
        summary_matches(s2, date, in2, k2),
        in2.active_domain_rows@ == in1.active_domain_rows@.push(row),
    ensures
        (forall|i: int| 0 <= i < in1.active_domain_rows@.len() ==> (#[trigger] in1.active_domain_rows@[i]).0 != date)
            ==> s1.active_browser_seconds == 0,
        row.0 == date ==> s2.active_browser_seconds == s1.active_browser_seconds + row.1,
        row.0 != date ==> s2.active_browser_seconds == s1.active_browser_seconds,
{
    assert(in2.active_domain_rows@.drop_last() =~= in1.active_domain_rows@);
    lemma_pair_seconds_absent(in1.active_domain_rows@, date);
}

proof fn lemma_pair_seconds_absent(rows: Seq<(i64, i64)>, date: int)
    ensures
        (forall|i: int| 0 <= i < rows.len() ==> (#[trigger] rows[i]).0 != date) ==> pair_seconds_on(rows, date) == 0,
    decreases rows.len(),
{
    if rows.len() > 0 {
        lemma_pair_seconds_absent(rows.drop_last(), date);
        if forall|i: int| 0 <= i < rows.len() ==> (#[trigger] rows[i]).0 != date {
            assert forall|i: int| 0 <= i < rows.drop_last().len() implies (#[trigger] rows.drop_last()[i]).0 != date by {
                assert(rows.drop_last()[i] == rows[i]);
            }
            assert(rows.last() == rows[rows.len() - 1]);
        }
    }
}

/// Law: each total of a day summary comes from its own rows: the focus time and
/// switch count from the application rows, the browser time from the domain rows,
/// the active time from the active-presence rows and the active application time
/// from the active-application rows. Summaries of the same date whose inputs agree
/// on those rows agree on those totals, whatever their other rows.
pub proof fn law_summary_totals_from_their_rows(
    s1: DaySummary,
    in1: SummaryInputs,
    k1: i64,
    s2: DaySummary,
    in2: SummaryInputs,
    k2: i64,
    date: int,
)
    requires
        summary_matches(s1, date, in1, k1),
        summary_matches(s2, date, in2, k2),
    ensures
        in1.app_rows@ == in2.app_rows@ ==> s1.focus_seconds == s2.focus_seconds && s1.switch_count
            == s2.switch_count,
        in1.domain_rows@ == in2.domain_rows@ ==> s1.browser_seconds == s2.browser_seconds,
        in1.active_rows@ == in2.active_rows@ ==> s1.active_seconds == s2.active_seconds,
        in1.active_app_rows@ == in2.active_app_rows@ ==> s1.active_app_seconds == s2.active_app_seconds,
        s1.date@ == s2.date@,
{
}

} // verus!
