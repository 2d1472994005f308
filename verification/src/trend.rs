//! The application usage trend: per-application totals over a week or a month,
//! the applications ranked by total, and their seconds per day.

use vstd::prelude::*;
use crate::rollup::RollupRow;
use crate::api::{lex_lt, lex_less, lemma_lex_total, lemma_lex_transitive, TrendPeriod};
use crate::text::{chars_of, seq_equal};
use crate::clock::{
    calendar_parts, calendar_of_day, date_from_calendar, day_of_calendar, days_from_monday, weekday_from_monday,
    days_in_month, month_length,
};

verus! {

// ---------------------------------------------------------------------------
// Periods
// ---------------------------------------------------------------------------

/// Why a trend period cannot be formed.
#[derive(Clone, Copy, Debug, PartialEq, Eq, Structural)]
pub enum PeriodError {
    /// The anchor date lies outside the calendar.
    OutOfRange,
}

/// First and last day of the period around `anchor`: Monday to Sunday of its week,
/// or the first to the last day of its month; `None` for a day outside the calendar
/// (or, for a month, outside the years -9999 to 9999).
pub open spec fn trend_bounds_spec(anchor: int, period: TrendPeriod) -> Option<(int, int)> {
    match period {
        TrendPeriod::Week => if calendar_of_day(anchor) is Some {
            let start = anchor - weekday_from_monday(anchor);
            Some((start, start + 6))
        } else {
            None
        },
        TrendPeriod::Month => match calendar_of_day(anchor) {
            Some((y, m, _)) => if 1 <= m <= 12 && -9999 <= y <= 9999 {
                match day_of_calendar(y, m, 1) {
                    Some(first) => Some((first, first + month_length(y, m) - 1)),
                    None => None,
                }
            } else {
                None
            },
            None => None,
        },
    }
}

pub fn trend_bounds(anchor: i64, period: TrendPeriod) -> (r: Result<(i64, i64), PeriodError>)
    requires
        i32::MIN <= anchor <= i32::MAX,
    ensures
        match r {
            Ok((a, b)) => trend_bounds_spec(anchor as int, period) == Some((a as int, b as int)),
            Err(e) => trend_bounds_spec(anchor as int, period) is None && e == PeriodError::OutOfRange,
        },
{
    match period {
        TrendPeriod::Week => match days_from_monday(anchor) {
            Some(offset) => {
                let start = anchor - offset as i64;
                Ok((start, start + 6))
            },
            None => Err(PeriodError::OutOfRange),
        },
        TrendPeriod::Month => {
            let (y, m, _) = match calendar_parts(anchor) {
                Some(p) => p,
                None => return Err(PeriodError::OutOfRange),
            };
            if m < 1 || m > 12 || y < -9999 || y > 9999 {
                return Err(PeriodError::OutOfRange);
            }
            let first = match date_from_calendar(y, m, 1) {
                Some(d) => d,
                None => return Err(PeriodError::OutOfRange),
            };
            let len = days_in_month(y, m);
            Ok((first, first + len as i64 - 1))
        },
    }
}

/// The days from `start` to `end`, both included (none when `end` comes first).
pub fn date_range(start: i64, end: i64) -> (r: Vec<i64>)
    ensures
        end < start ==> r@.len() == 0,
        end >= start ==> r@.len() == end - start + 1 && forall|k: int| 0 <= k < r@.len() ==> #[trigger] r@[k] == start + k,
{
    let mut out: Vec<i64> = Vec::new();
    if end < start {
        return out;
    }
    let mut day: i64 = start;
    loop
        invariant_except_break
            start <= day <= end,
            out@.len() == day - start,
            forall|j: int| 0 <= j < out@.len() ==> #[trigger] out@[j] == start + j,
        ensures
            out@.len() == end - start + 1,
            forall|j: int| 0 <= j < out@.len() ==> #[trigger] out@[j] == start + j,
        decreases end - day,
    {
        out.push(day);
        if day == end {
            break;
        }
        day = day + 1;
    }
    out
}

// ---------------------------------------------------------------------------
// Ranking
// ---------------------------------------------------------------------------

/// Seconds of the rows of `key`.
pub open spec fn key_total(rows: Seq<RollupRow>, key: Seq<char>) -> int
    decreases rows.len(),
{
    if rows.len() == 0 {
        0
    } else {
        key_total(rows.drop_last(), key) + if rows.last().key@ == key {
            rows.last().seconds as int
        } else {
            0
        }
    }
}

/// Sum of the magnitudes of the rows' seconds: every partial total stays within it.
pub open spec fn seconds_magnitude(rows: Seq<RollupRow>) -> int
    decreases rows.len(),
{
    if rows.len() == 0 {
        0
    } else {
        seconds_magnitude(rows.drop_last()) + if rows.last().seconds < 0 {
            -(rows.last().seconds as int)
        } else {
            rows.last().seconds as int
        }
    }
}

proof fn lemma_key_total_bounded(rows: Seq<RollupRow>, key: Seq<char>)
    ensures
        -seconds_magnitude(rows) <= key_total(rows, key) <= seconds_magnitude(rows),
        seconds_magnitude(rows) >= 0,
    decreases rows.len(),
{
    if rows.len() > 0 {
        lemma_key_total_bounded(rows.drop_last(), key);
    }
}

proof fn lemma_magnitude_prefix(rows: Seq<RollupRow>, i: int)
    requires
        0 <= i <= rows.len(),
    ensures
        seconds_magnitude(rows.subrange(0, i)) <= seconds_magnitude(rows),
    decreases rows.len() - i,
{
    if i < rows.len() {
        lemma_magnitude_prefix(rows, i + 1);
        assert(rows.subrange(0, i + 1).drop_last() =~= rows.subrange(0, i));
    } else {
        assert(rows.subrange(0, i) =~= rows);
    }
}

/// The seconds of `key` in the rows.
fn total_of(rows: &Vec<RollupRow>, key: &Vec<char>) -> (r: i64)
    requires
        seconds_magnitude(rows@) <= i64::MAX,
    ensures
        r == key_total(rows@, key@),
{
    let mut total: i64 = 0;
    let mut i: usize = 0;
    while i < rows.len()
        invariant
            i <= rows@.len(),
            seconds_magnitude(rows@) <= i64::MAX,
            total == key_total(rows@.subrange(0, i as int), key@),
        decreases rows@.len() - i,
    {
        proof {
            let p = rows@.subrange(0, i + 1);
            assert(p.drop_last() =~= rows@.subrange(0, i as int));
            assert(p.last() == rows@[i as int]);
            lemma_magnitude_prefix(rows@, i + 1);
            lemma_key_total_bounded(p, key@);
        }
        if seq_equal(&chars_of(rows[i].key.as_str()), key) {
            total = total + rows[i].seconds;
        }
        i += 1;
    }
    proof {
        assert(rows@.subrange(0, rows@.len() as int) =~= rows@);
    }
    total
}

/// Series rank: more seconds first, then keys in ascending order.
pub open spec fn ranks_before(a_total: int, a_key: Seq<char>, b_total: int, b_key: Seq<char>) -> bool {
    a_total > b_total || (a_total == b_total && lex_lt(a_key, b_key))
}

/// Some row has `key`.
pub open spec fn has_key(rows: Seq<RollupRow>, key: Seq<char>) -> bool {
    exists|i: int| 0 <= i < rows.len() && (#[trigger] rows[i]).key@ == key
}

/// The applications of the period ranked: distinct keys, every key of the raw and
/// the active rows, strictly by rank of their raw totals.
pub open spec fn ranked_keys(raw: Seq<RollupRow>, active: Seq<RollupRow>, ks: Seq<Seq<char>>) -> bool {
    &&& forall|i: int, j: int| 0 <= i < j < ks.len() ==> ranks_before(
        key_total(raw, #[trigger] ks[i]),
        ks[i],
        key_total(raw, #[trigger] ks[j]),
        ks[j],
    )
    &&& forall|i: int| 0 <= i < ks.len() ==> has_key(raw, #[trigger] ks[i]) || has_key(active, ks[i])
    &&& forall|i: int| 0 <= i < raw.len() ==> ks.contains((#[trigger] raw[i]).key@)
    &&& forall|i: int| 0 <= i < active.len() ==> ks.contains((#[trigger] active[i]).key@)
}

/// The state while ranking: `ks` holds, by rank, the keys of `raw[..i]` and
/// `active[..j]`, with their totals in `ts`.
pub open spec fn ranking_state(raw: Seq<RollupRow>, active: Seq<RollupRow>, i: int, j: int, ks: Seq<Seq<char>>, ts: Seq<i64>) -> bool {
    &&& 0 <= i <= raw.len()
    &&& 0 <= j <= active.len()
    &&& ts.len() == ks.len()
    &&& forall|k: int| 0 <= k < ks.len() ==> (#[trigger] ts[k]) as int == key_total(raw, ks[k])
    &&& forall|a: int, b: int| 0 <= a < b < ks.len() ==> ranks_before(
        key_total(raw, #[trigger] ks[a]),
        ks[a],
        key_total(raw, #[trigger] ks[b]),
        ks[b],
    )
    &&& forall|k: int| 0 <= k < ks.len() ==> has_key(raw, #[trigger] ks[k]) || has_key(active, ks[k])
    &&& forall|k: int| 0 <= k < i ==> ks.contains((#[trigger] raw[k]).key@)
    &&& forall|k: int| 0 <= k < j ==> ks.contains((#[trigger] active[k]).key@)
}

proof fn lemma_rank_total(ta: int, a: Seq<char>, tb: int, b: Seq<char>)
    requires
        a != b,
        !ranks_before(ta, a, tb, b),
    ensures
        ranks_before(tb, b, ta, a),
{
    if ta == tb {
        lemma_lex_total(a, b);
    }
}

proof fn lemma_rank_transitive(ta: int, a: Seq<char>, tb: int, b: Seq<char>, tc: int, c: Seq<char>)
    requires
        ranks_before(ta, a, tb, b),
        ranks_before(tb, b, tc, c),
    ensures
        ranks_before(ta, a, tc, c),
{
    if ta == tb && tb == tc {
        lemma_lex_transitive(a, b, c);
    }
}

/// Inserting a new key at its rank keeps the ranking.
proof fn lemma_ranking_insert(
    raw: Seq<RollupRow>,
    active: Seq<RollupRow>,
    i: int,
    j: int,
    ks: Seq<Seq<char>>,
    ts: Seq<i64>,
    p: int,
    key: Seq<char>,
    t: i64,
    i2: int,
    j2: int,
)
    requires
        ranking_state(raw, active, i, j, ks, ts),
        t as int == key_total(raw, key),
        has_key(raw, key) || has_key(active, key),
        !ks.contains(key),
        0 <= p <= ks.len(),
        forall|k: int| 0 <= k < p ==> ranks_before(key_total(raw, #[trigger] ks[k]), ks[k], t as int, key),
        p < ks.len() ==> !ranks_before(key_total(raw, ks[p]), ks[p], t as int, key),
        i <= i2 <= raw.len(),
        j <= j2 <= active.len(),
        forall|k: int| i <= k < i2 ==> (#[trigger] raw[k]).key@ == key,
        forall|k: int| j <= k < j2 ==> (#[trigger] active[k]).key@ == key,
    ensures
        ranking_state(raw, active, i2, j2, ks.insert(p, key), ts.insert(p, t)),
{
    let nk = ks.insert(p, key);
    let nt = ts.insert(p, t);
    assert forall|k: int| p <= k < ks.len() implies ranks_before(t as int, key, key_total(raw, #[trigger] ks[k]), ks[k]) by {
        assert(ks[p] != key);
        lemma_rank_total(key_total(raw, ks[p]), ks[p], t as int, key);
        if k > p {
            lemma_rank_transitive(t as int, key, key_total(raw, ks[p]), ks[p], key_total(raw, ks[k]), ks[k]);
        }
    }
    assert forall|a: int, b: int| 0 <= a < b < nk.len() implies ranks_before(
        key_total(raw, #[trigger] nk[a]),
        nk[a],
        key_total(raw, #[trigger] nk[b]),
        nk[b],
    ) by {
        if b < p {
            assert(nk[a] == ks[a] && nk[b] == ks[b]);
        } else if b == p {
            assert(nk[a] == ks[a]);
        } else if a < p {
            assert(nk[a] == ks[a] && nk[b] == ks[b - 1]);
            lemma_rank_transitive(key_total(raw, ks[a]), ks[a], t as int, key, key_total(raw, ks[b - 1]), ks[b - 1]);
        } else if a == p {
            assert(nk[b] == ks[b - 1]);
        } else {
            assert(nk[a] == ks[a - 1] && nk[b] == ks[b - 1]);
        }
    }
    assert forall|k: int| 0 <= k < nk.len() implies (#[trigger] nt[k]) as int == key_total(raw, nk[k]) by {
        if k < p {
            assert(nt[k] == ts[k] && nk[k] == ks[k]);
        } else if k > p {
            assert(nt[k] == ts[k - 1] && nk[k] == ks[k - 1]);
        }
    }
    assert forall|k: int| 0 <= k < nk.len() implies has_key(raw, #[trigger] nk[k]) || has_key(active, nk[k]) by {
        if k < p {
            assert(nk[k] == ks[k]);
        } else if k > p {
            assert(nk[k] == ks[k - 1]);
        }
    }
    assert forall|k: int| 0 <= k < i2 implies nk.contains((#[trigger] raw[k]).key@) by {
        if k < i {
            let w = choose|w: int| 0 <= w < ks.len() && ks[w] == raw[k].key@;
            if w < p {
                assert(nk[w] == ks[w]);
            } else {
                assert(nk[w + 1] == ks[w]);
            }
        } else {
            assert(nk[p] == key);
        }
    }
    assert forall|k: int| 0 <= k < j2 implies nk.contains((#[trigger] active[k]).key@) by {
        if k < j {
            let w = choose|w: int| 0 <= w < ks.len() && ks[w] == active[k].key@;
            if w < p {
                assert(nk[w] == ks[w]);
            } else {
                assert(nk[w + 1] == ks[w]);
            }
        } else {
            assert(nk[p] == key);
        }
    }
}

proof fn lemma_ranking_skip(
    raw: Seq<RollupRow>,
    active: Seq<RollupRow>,
    i: int,
    j: int,
    ks: Seq<Seq<char>>,
    ts: Seq<i64>,
    i2: int,
    j2: int,
)
    requires
        ranking_state(raw, active, i, j, ks, ts),
        i <= i2 <= raw.len(),
        j <= j2 <= active.len(),
        forall|k: int| i <= k < i2 ==> ks.contains((#[trigger] raw[k]).key@),
        forall|k: int| j <= k < j2 ==> ks.contains((#[trigger] active[k]).key@),
    ensures
        ranking_state(raw, active, i2, j2, ks, ts),
{
}

/// Keys and totals of the period's applications in rank order.
fn rank_keys(raw: &Vec<RollupRow>, active: &Vec<RollupRow>) -> (r: (Vec<Vec<char>>, Vec<i64>))
    requires
        seconds_magnitude(raw@) <= i64::MAX,
    ensures
        ranked_keys(raw@, active@, views(r.0@)),
        r.1@.len() == r.0@.len(),
        forall|k: int| 0 <= k < r.1@.len() ==> (#[trigger] r.1@[k]) as int == key_total(raw@, r.0@[k]@),
{
    let mut ks: Vec<Vec<char>> = Vec::new();
    let mut ts: Vec<i64> = Vec::new();
    proof {
        assert(views(ks@) =~= Seq::<Seq<char>>::empty());
    }
    let mut i: usize = 0;
    while i < raw.len()
        invariant
            i <= raw@.len(),
            seconds_magnitude(raw@) <= i64::MAX,
            ranking_state(raw@, active@, i as int, 0, views(ks@), ts@),
        decreases raw@.len() - i,
    {
        let key = chars_of(raw[i].key.as_str());
        proof {
            assert(has_key(raw@, key@)) by {
                assert(raw@[i as int].key@ == key@);
            }
        }
        insert_ranked(&mut ks, &mut ts, raw, active, key, Ghost(i as int), Ghost(0), Ghost(i as int + 1), Ghost(0));
        i += 1;
    }
    let mut j: usize = 0;
    while j < active.len()
        invariant
            j <= active@.len(),
            seconds_magnitude(raw@) <= i64::MAX,
            ranking_state(raw@, active@, raw@.len() as int, j as int, views(ks@), ts@),
        decreases active@.len() - j,
    {
        let key = chars_of(active[j].key.as_str());
        proof {
            assert(has_key(active@, key@)) by {
                assert(active@[j as int].key@ == key@);
            }
        }
        insert_ranked(&mut ks, &mut ts, raw, active, key, Ghost(raw@.len() as int), Ghost(j as int), Ghost(raw@.len() as int), Ghost(j as int + 1));
        j += 1;
    }
    proof {
        let kv = views(ks@);
        assert forall|k: int| 0 <= k < ts@.len() implies (#[trigger] ts@[k]) as int == key_total(raw@, ks@[k]@) by {
            assert(kv[k] == ks@[k]@);
        }
    }
    (ks, ts)
}

pub open spec fn views(ks: Seq<Vec<char>>) -> Seq<Seq<char>> {
    ks.map_values(|k: Vec<char>| k@)
}

/// Adds `key` at its rank unless it is already listed.
fn insert_ranked(
    ks: &mut Vec<Vec<char>>,
    ts: &mut Vec<i64>,
    raw: &Vec<RollupRow>,
    active: &Vec<RollupRow>,
    key: Vec<char>,
    Ghost(i): Ghost<int>,
    Ghost(j): Ghost<int>,
    Ghost(i2): Ghost<int>,
    Ghost(j2): Ghost<int>,
)
    requires
        seconds_magnitude(raw@) <= i64::MAX,
        ranking_state(raw@, active@, i, j, views(old(ks)@), old(ts)@),
        has_key(raw@, key@) || has_key(active@, key@),
        i <= i2 <= raw@.len(),
        j <= j2 <= active@.len(),
        forall|k: int| i <= k < i2 ==> (#[trigger] raw@[k]).key@ == key@,
        forall|k: int| j <= k < j2 ==> (#[trigger] active@[k]).key@ == key@,
    ensures
        ranking_state(raw@, active@, i2, j2, views(final(ks)@), final(ts)@),
{
    let ghost kv = views(ks@);
    let mut w: usize = 0;
    while w < ks.len()
        invariant
            w <= ks@.len(),
            kv == views(ks@),
            forall|k: int| 0 <= k < w ==> (#[trigger] kv[k]) != key@,
            ranking_state(raw@, active@, i, j, kv, ts@),
            i <= i2 <= raw@.len(),
            j <= j2 <= active@.len(),
            forall|k: int| i <= k < i2 ==> (#[trigger] raw@[k]).key@ == key@,
            forall|k: int| j <= k < j2 ==> (#[trigger] active@[k]).key@ == key@,
        decreases ks@.len() - w,
    {
        if seq_equal(&ks[w], &key) {
            proof {
                assert(kv[w as int] == ks@[w as int]@);
                assert forall|k: int| i <= k < i2 implies kv.contains((#[trigger] raw@[k]).key@) by {
                    assert(kv[w as int] == raw@[k].key@);
                }
                assert forall|k: int| j <= k < j2 implies kv.contains((#[trigger] active@[k]).key@) by {
                    assert(kv[w as int] == active@[k].key@);
                }
                lemma_ranking_skip(raw@, active@, i, j, kv, ts@, i2, j2);
            }
            return;
        }
        proof {
            assert(kv[w as int] == ks@[w as int]@);
        }
        w += 1;
    }
    let t = total_of(raw, &key);
    let mut p: usize = 0;
    while p < ks.len() && (ts[p] > t || (ts[p] == t && lex_less(&ks[p], &key)))
        invariant
            p <= ks@.len(),
            kv == views(ks@),
            ranking_state(raw@, active@, i, j, kv, ts@),
            forall|k: int| 0 <= k < kv.len() ==> (#[trigger] kv[k]) != key@,
            t as int == key_total(raw@, key@),
            forall|k: int| 0 <= k < p ==> ranks_before(key_total(raw@, #[trigger] kv[k]), kv[k], t as int, key@),
        decreases ks@.len() - p,
    {
        proof {
            assert(kv[p as int] == ks@[p as int]@);
        }
        p += 1;
    }
    proof {
        if p < ks@.len() {
            assert(kv[p as int] == ks@[p as int]@);
        }
        assert(!kv.contains(key@)) by {
            if kv.contains(key@) {
                let q = choose|q: int| 0 <= q < kv.len() && kv[q] == key@;
                assert(kv[q] != key@);
            }
        }
        lemma_ranking_insert(raw@, active@, i, j, kv, ts@, p as int, key@, t, i2, j2);
    }
    let ghost key_view = key@;
    ks.insert(p, key);
    ts.insert(p, t);
    proof {
        assert(views(ks@) =~= kv.insert(p as int, key_view));
    }
}

// ---------------------------------------------------------------------------
// Series
// ---------------------------------------------------------------------------

/// The label of the last row of `key`.
pub open spec fn last_label(rows: Seq<RollupRow>, key: Seq<char>) -> Option<Seq<char>>
    decreases rows.len(),
{
    if rows.len() == 0 {
        None
    } else if rows.last().key@ == key {
        Some(rows.last().label@)
    } else {
        last_label(rows.drop_last(), key)
    }
}

/// The label of the first row of `key`.
pub open spec fn first_label(rows: Seq<RollupRow>, key: Seq<char>) -> Option<Seq<char>>
    decreases rows.len(),
{
    if rows.len() == 0 {
        None
    } else {
        match first_label(rows.drop_last(), key) {
            Some(l) => Some(l),
            None => if rows.last().key@ == key {
                Some(rows.last().label@)
            } else {
                None
            },
        }
    }
}

/// A series' label: the last usage row's, else the first active row's.
pub open spec fn series_label(raw: Seq<RollupRow>, active: Seq<RollupRow>, key: Seq<char>) -> Option<Seq<char>> {
    match last_label(raw, key) {
        Some(l) => Some(l),
        None => first_label(active, key),
    }
}

/// Seconds of `key` on day `d`: the last row for both, else 0.
pub open spec fn day_value(rows: Seq<RollupRow>, key: Seq<char>, d: int) -> int
    decreases rows.len(),
{
    if rows.len() == 0 {
        0
    } else if rows.last().key@ == key && rows.last().date == d {
        rows.last().seconds as int
    } else {
        day_value(rows.drop_last(), key, d)
    }
}

/// One application's line in the trend chart.
#[derive(Clone, Debug)]
pub struct AppUsageTrendSeries {
    pub key: String,
    pub label: String,
    pub total_seconds: i64,
    pub daily_seconds: Vec<i64>,
    pub active_total_seconds: i64,
    pub active_daily_seconds: Vec<i64>,
}

fn label_of(raw: &Vec<RollupRow>, active: &Vec<RollupRow>, key: &Vec<char>) -> (r: Option<String>)
    ensures
        match r {
            Some(l) => series_label(raw@, active@, key@) == Some(l@),
            None => series_label(raw@, active@, key@) is None,
        },
{
    let mut i: usize = raw.len();
    proof {
        assert(raw@.subrange(0, raw@.len() as int) =~= raw@);
    }
    while i > 0
        invariant
            i <= raw@.len(),
            last_label(raw@, key@) == last_label(raw@.subrange(0, i as int), key@),
        decreases i,
    {
        proof {
            let p = raw@.subrange(0, i as int);
            assert(p.drop_last() =~= raw@.subrange(0, i - 1));
            assert(p.last() == raw@[i - 1]);
        }
        if seq_equal(&chars_of(raw[i - 1].key.as_str()), key) {
            return Some(raw[i - 1].label.clone());
        }
        i -= 1;
    }
    let mut j: usize = 0;
    proof {
        assert(active@.subrange(0, 0) =~= Seq::<RollupRow>::empty());
    }
    while j < active.len()
        invariant
            j <= active@.len(),
            last_label(raw@, key@) is None,
            first_label(active@.subrange(0, j as int), key@) is None,
        decreases active@.len() - j,
    {
        proof {
            let p = active@.subrange(0, j + 1);
            assert(p.drop_last() =~= active@.subrange(0, j as int));
            assert(p.last() == active@[j as int]);
        }
        if seq_equal(&chars_of(active[j].key.as_str()), key) {
            proof {
                lemma_first_label_extends(active@, key@, j + 1);
            }
            return Some(active[j].label.clone());
        }
        j += 1;
    }
    proof {
        assert(active@.subrange(0, active@.len() as int) =~= active@);
    }
    None
}

proof fn lemma_first_label_extends(rows: Seq<RollupRow>, key: Seq<char>, j: int)
    requires
        0 <= j <= rows.len(),
        first_label(rows.subrange(0, j), key) is Some,
    ensures
        first_label(rows, key) == first_label(rows.subrange(0, j), key),
    decreases rows.len() - j,
{
    if j < rows.len() {
        let p = rows.subrange(0, j + 1);
        assert(p.drop_last() =~= rows.subrange(0, j));
        lemma_first_label_extends(rows, key, j + 1);
    } else {
        assert(rows.subrange(0, j) =~= rows);
    }
}

/// The seconds of `key` on each of `days`.
fn values_of(rows: &Vec<RollupRow>, key: &Vec<char>, days: &Vec<i64>) -> (r: Vec<i64>)
    ensures
        r@.len() == days@.len(),
        forall|k: int| 0 <= k < r@.len() ==> (#[trigger] r@[k]) as int == day_value(rows@, key@, days@[k] as int),
{
    let mut out: Vec<i64> = Vec::new();
    let mut k: usize = 0;
    while k < days.len()
        invariant
            k <= days@.len(),
            out@.len() == k,
            forall|x: int| 0 <= x < k ==> (#[trigger] out@[x]) as int == day_value(rows@, key@, days@[x] as int),
        decreases days@.len() - k,
    {
        let d = days[k];
        let mut i: usize = rows.len();
        let mut v: i64 = 0;
        let mut found = false;
        proof {
            assert(rows@.subrange(0, rows@.len() as int) =~= rows@);
        }
        while i > 0 && !found
            invariant
                i <= rows@.len(),
                found ==> v as int == day_value(rows@, key@, d as int),
                !found ==> day_value(rows@, key@, d as int) == day_value(rows@.subrange(0, i as int), key@, d as int),
                !found ==> v == 0,
            decreases i,
        {
            proof {
                let p = rows@.subrange(0, i as int);
                assert(p.drop_last() =~= rows@.subrange(0, i - 1));
                assert(p.last() == rows@[i - 1]);
            }
            if rows[i - 1].date == d && seq_equal(&chars_of(rows[i - 1].key.as_str()), key) {
                v = rows[i - 1].seconds;
                found = true;
            }
            i -= 1;
        }
        proof {
            if !found {
                assert(rows@.subrange(0, 0).len() == 0);
            }
        }
        out.push(v);
        k += 1;
    }
    out
}

proof fn lemma_labels_exist(rows: Seq<RollupRow>, key: Seq<char>)
    requires
        has_key(rows, key),
    ensures
        last_label(rows, key) is Some,
        first_label(rows, key) is Some,
    decreases rows.len(),
{
    let i = choose|i: int| 0 <= i < rows.len() && (#[trigger] rows[i]).key@ == key;
    if rows.last().key@ != key {
        assert(i < rows.len() - 1);
        assert(rows.drop_last()[i] == rows[i]);
        lemma_labels_exist(rows.drop_last(), key);
    } else if rows.len() > 1 && has_key(rows.drop_last(), key) {
        lemma_labels_exist(rows.drop_last(), key);
    }
}

/// The number of series shown: the requested limit kept within 1 to 12.
pub open spec fn series_limit(limit: int) -> int {
    if limit < 1 {
        1
    } else if limit > 12 {
        12
    } else {
        limit
    }
}

/// A series describes `key` over `days`.
pub open spec fn series_matches(s: AppUsageTrendSeries, key: Seq<char>, raw: Seq<RollupRow>, active: Seq<RollupRow>, days: Seq<i64>) -> bool {
    &&& s.key@ == key
    &&& series_label(raw, active, key) == Some(s.label@)
    &&& s.total_seconds == key_total(raw, key)
    &&& s.active_total_seconds == key_total(active, key)
    &&& s.daily_seconds@.len() == days.len()
    &&& s.active_daily_seconds@.len() == days.len()
    &&& forall|k: int| 0 <= k < days.len() ==> (#[trigger] s.daily_seconds@[k]) as int == day_value(raw, key, days[k] as int)
    &&& forall|k: int| 0 <= k < days.len() ==> (#[trigger] s.active_daily_seconds@[k]) as int == day_value(active, key, days[k] as int)
}

/// The trend chart of a period with `days`: the applications of the usage rows
/// `raw` and the active-usage rows `active` (rows of the period with positive
/// seconds, oldest first), ranked by usage total and then by key, at most
/// `limit` (kept within 1 to 12) of them, each with its totals and its seconds per
/// day.
pub fn app_usage_trend(days: &Vec<i64>, raw: &Vec<RollupRow>, active: &Vec<RollupRow>, limit: usize) -> (r: Vec<AppUsageTrendSeries>)
    requires
        seconds_magnitude(raw@) <= i64::MAX,
        seconds_magnitude(active@) <= i64::MAX,
    ensures
        exists|ks: Seq<Seq<char>>| #![trigger ranked_keys(raw@, active@, ks)]
            ranked_keys(raw@, active@, ks) && r@.len() == if ks.len() < series_limit(limit as int) {
                ks.len() as int
            } else {
                series_limit(limit as int)
            } && forall|i: int| 0 <= i < r@.len() ==> series_matches(#[trigger] r@[i], ks[i], raw@, active@, days@),
{
    let (ks, ts) = rank_keys(raw, active);
    let cap: usize = if limit < 1 {
        1
    } else if limit > 12 {
        12
    } else {
        limit
    };
    let n: usize = if ks.len() < cap {
        ks.len()
    } else {
        cap
    };
    let ghost kv = views(ks@);
    let mut out: Vec<AppUsageTrendSeries> = Vec::new();
    let mut i: usize = 0;
    while i < n
        invariant
            i <= n,
            n <= ks@.len(),
            kv == views(ks@),
            ranked_keys(raw@, active@, kv),
            ts@.len() == ks@.len(),
            forall|k: int| 0 <= k < ts@.len() ==> (#[trigger] ts@[k]) as int == key_total(raw@, ks@[k]@),
            seconds_magnitude(active@) <= i64::MAX,
            out@.len() == i,
            forall|x: int| 0 <= x < i ==> series_matches(#[trigger] out@[x], kv[x], raw@, active@, days@),
        decreases n - i,
    {
        let key = &ks[i];
        proof {
            assert(kv[i as int] == key@);
            assert(has_key(raw@, kv[i as int]) || has_key(active@, kv[i as int]));
            if has_key(raw@, key@) {
                lemma_labels_exist(raw@, key@);
            } else {
                lemma_labels_exist(active@, key@);
            }
        }
        let label = match label_of(raw, active, key) {
            Some(l) => l,
            None => String::new(),
        };
        let series = AppUsageTrendSeries {
            key: crate::text::string_from(key),
            label,
            total_seconds: ts[i],
            daily_seconds: values_of(raw, key, days),
            active_total_seconds: total_of(active, key),
            active_daily_seconds: values_of(active, key, days),
        };
        out.push(series);
        i += 1;
    }
    out
}

// ---------------------------------------------------------------------------
// Daily values add up to the total
// ---------------------------------------------------------------------------

/// Sum of a series of seconds.
pub open spec fn sum_seconds(v: Seq<i64>) -> int
    decreases v.len(),
{
    if v.len() == 0 {
        0
    } else {
        sum_seconds(v.drop_last()) + v.last() as int
    }
}

/// Sum of `key`'s seconds over `days`.
pub open spec fn sum_day_values(rows: Seq<RollupRow>, key: Seq<char>, days: Seq<i64>) -> int
    decreases days.len(),
{
    if days.len() == 0 {
        0
    } else {
        sum_day_values(rows, key, days.drop_last()) + day_value(rows, key, days.last() as int)
    }
}

/// How often `d` occurs in `days`.
pub open spec fn occurrences(days: Seq<i64>, d: int) -> int
    decreases days.len(),
{
    if days.len() == 0 {
        0
    } else {
        occurrences(days.drop_last(), d) + if days.last() == d { 1int } else { 0int }
    }
}

/// No day is listed twice.
pub open spec fn distinct_days(days: Seq<i64>) -> bool {
    forall|i: int, j: int| 0 <= i < j < days.len() ==> days[i] != days[j]
}

/// Every row's date is one of `days`.
pub open spec fn rows_within_days(rows: Seq<RollupRow>, days: Seq<i64>) -> bool {
    forall|i: int| 0 <= i < rows.len() ==> days.contains((#[trigger] rows[i]).date)
}

/// No two rows share both key and date.
pub open spec fn one_row_per_key_and_day(rows: Seq<RollupRow>) -> bool {
    forall|i: int, j: int| 0 <= i < j < rows.len() ==> !((#[trigger] rows[i]).key@ == (#[trigger] rows[j]).key@
        && rows[i].date == rows[j].date)
}

proof fn lemma_day_value_absent(rows: Seq<RollupRow>, key: Seq<char>, d: int)
    requires
        forall|i: int| 0 <= i < rows.len() ==> !((#[trigger] rows[i]).key@ == key && rows[i].date == d),
    ensures
        day_value(rows, key, d) == 0,
    decreases rows.len(),
{
    if rows.len() > 0 {
        assert(rows.last() == rows[rows.len() - 1]);
        assert forall|i: int| 0 <= i < rows.drop_last().len() implies !((#[trigger] rows.drop_last()[i]).key@ == key
            && rows.drop_last()[i].date == d) by {
            assert(rows.drop_last()[i] == rows[i]);
        }
        lemma_day_value_absent(rows.drop_last(), key, d);
    }
}

proof fn lemma_occurs_once(days: Seq<i64>, d: i64)
    requires
        distinct_days(days),
        days.contains(d),
    ensures
        occurrences(days, d as int) == 1,
    decreases days.len(),
{
    let p = days.drop_last();
    let k = choose|k: int| 0 <= k < days.len() && days[k] == d;
    if days.last() == d {
        assert(k == days.len() - 1);
        lemma_occurs_none(p, d);
        assert forall|i: int| 0 <= i < p.len() implies (#[trigger] p[i]) != d by {
            assert(p[i] == days[i]);
        }
    } else {
        assert(k < days.len() - 1);
        assert(p[k] == d);
        assert(distinct_days(p)) by {
            assert forall|i: int, j: int| 0 <= i < j < p.len() implies p[i] != p[j] by {
                assert(p[i] == days[i] && p[j] == days[j]);
            }
        }
        lemma_occurs_once(p, d);
    }
}

proof fn lemma_occurs_none(days: Seq<i64>, d: i64)
    ensures
        (forall|i: int| 0 <= i < days.len() ==> (#[trigger] days[i]) != d) ==> occurrences(days, d as int) == 0,
    decreases days.len(),
{
    if days.len() > 0 {
        lemma_occurs_none(days.drop_last(), d);
        if forall|i: int| 0 <= i < days.len() ==> (#[trigger] days[i]) != d {
            assert forall|i: int| 0 <= i < days.drop_last().len() implies (#[trigger] days.drop_last()[i]) != d by {
                assert(days.drop_last()[i] == days[i]);
            }
            assert(days.last() == days[days.len() - 1]);
        }
    }
}

proof fn lemma_sum_day_values_push(rows: Seq<RollupRow>, x: RollupRow, key: Seq<char>, days: Seq<i64>)
    requires
        x.key@ == key ==> day_value(rows, key, x.date as int) == 0,
    ensures
        sum_day_values(rows.push(x), key, days) == sum_day_values(rows, key, days) + if x.key@ == key {
            x.seconds as int * occurrences(days, x.date as int)
        } else {
            0
        },
    decreases days.len(),
{
    let r2 = rows.push(x);
    assert(r2.drop_last() =~= rows);
    if days.len() > 0 {
        lemma_sum_day_values_push(rows, x, key, days.drop_last());
        let d = days.last() as int;
        assert(day_value(r2, key, d) == if x.key@ == key && x.date == d {
            x.seconds as int
        } else {
            day_value(rows, key, d)
        });
        assert(x.seconds as int * occurrences(days, x.date as int) == x.seconds as int * occurrences(
            days.drop_last(),
            x.date as int,
        ) + if days.last() == x.date { x.seconds as int } else { 0 }) by (nonlinear_arith)
            requires
                occurrences(days, x.date as int) == occurrences(days.drop_last(), x.date as int) + if days.last()
                    == x.date { 1int } else { 0int },
        ;
    }
}

proof fn lemma_sum_day_values_total(rows: Seq<RollupRow>, key: Seq<char>, days: Seq<i64>)
    requires
        distinct_days(days),
        rows_within_days(rows, days),
        one_row_per_key_and_day(rows),
    ensures
        sum_day_values(rows, key, days) == key_total(rows, key),
    decreases rows.len(),
{
    if rows.len() == 0 {
        lemma_sum_day_values_zero(rows, key, days);
    } else {
        let p = rows.drop_last();
        let x = rows.last();
        assert(p.push(x) =~= rows);
        assert(rows_within_days(p, days)) by {
            assert forall|i: int| 0 <= i < p.len() implies days.contains((#[trigger] p[i]).date) by {
                assert(p[i] == rows[i]);
            }
        }
        assert(one_row_per_key_and_day(p)) by {
            assert forall|i: int, j: int| 0 <= i < j < p.len() implies !((#[trigger] p[i]).key@ == (#[trigger] p[j]).key@
                && p[i].date == p[j].date) by {
                assert(p[i] == rows[i] && p[j] == rows[j]);
            }
        }
        lemma_sum_day_values_total(p, key, days);
        if x.key@ == key {
            assert forall|i: int| 0 <= i < p.len() implies !((#[trigger] p[i]).key@ == key && p[i].date == x.date as int) by {
                assert(p[i] == rows[i]);
                assert(x == rows[rows.len() - 1]);
            }
            lemma_day_value_absent(p, key, x.date as int);
        }
        lemma_sum_day_values_push(p, x, key, days);
        assert(x == rows[rows.len() - 1]);
        assert(days.contains(x.date));
        lemma_occurs_once(days, x.date);
    }
}

proof fn lemma_sum_day_values_zero(rows: Seq<RollupRow>, key: Seq<char>, days: Seq<i64>)
    requires
        rows.len() == 0,
    ensures
        sum_day_values(rows, key, days) == 0,
    decreases days.len(),
{
    if days.len() > 0 {
        lemma_sum_day_values_zero(rows, key, days.drop_last());
    }
}

proof fn lemma_series_sum(v: Seq<i64>, rows: Seq<RollupRow>, key: Seq<char>, days: Seq<i64>)
    requires
        v.len() == days.len(),
        forall|k: int| 0 <= k < days.len() ==> (#[trigger] v[k]) as int == day_value(rows, key, days[k] as int),
    ensures
        sum_seconds(v) == sum_day_values(rows, key, days),
    decreases days.len(),
{
    if days.len() > 0 {
        let vp = v.drop_last();
        let dp = days.drop_last();
        assert forall|k: int| 0 <= k < dp.len() implies (#[trigger] vp[k]) as int == day_value(rows, key, dp[k] as int) by {
            assert(vp[k] == v[k] && dp[k] == days[k]);
        }
        lemma_series_sum(vp, rows, key, dp);
        assert(v.last() == v[v.len() - 1]);
        assert(days.last() == days[days.len() - 1]);
    }
}

/// Law: when every usage row lies on one of the period's days, the days are
/// distinct and no application has two rows for one day, each series' seconds per
/// day add up to its total, for the raw and for the active usage.
pub proof fn law_trend_days_add_up(
    s: AppUsageTrendSeries,
    key: Seq<char>,
    raw: Seq<RollupRow>,
    active: Seq<RollupRow>,
    days: Seq<i64>,
)
    requires
        series_matches(s, key, raw, active, days),
        distinct_days(days),
        rows_within_days(raw, days),
        rows_within_days(active, days),
        one_row_per_key_and_day(raw),
        one_row_per_key_and_day(active),
    ensures
        sum_seconds(s.daily_seconds@) == s.total_seconds,
        sum_seconds(s.active_daily_seconds@) == s.active_total_seconds,
{
    lemma_series_sum(s.daily_seconds@, raw, key, days);
    lemma_series_sum(s.active_daily_seconds@, active, key, days);
    lemma_sum_day_values_total(raw, key, days);
    lemma_sum_day_values_total(active, key, days);
}

/// Whether the rows' seconds stay within `i64` in every partial sum.
fn magnitude_fits(rows: &Vec<RollupRow>) -> (r: bool)
    ensures
        r == (seconds_magnitude(rows@) <= i64::MAX),
{
    let mut total: i64 = 0;
    let mut i: usize = 0;
    while i < rows.len()
        invariant
            i <= rows@.len(),
            total == seconds_magnitude(rows@.subrange(0, i as int)),
        decreases rows@.len() - i,
    {
        proof {
            let p = rows@.subrange(0, i + 1);
            assert(p.drop_last() =~= rows@.subrange(0, i as int));
            assert(p.last() == rows@[i as int]);
        }
        let s = rows[i].seconds;
        let m: i64 = if s < 0 {
            if s == i64::MIN {
                proof {
                    lemma_magnitude_prefix(rows@, i + 1);
                    lemma_key_total_bounded(rows@.subrange(0, i as int), Seq::<char>::empty());
                }
                return false;
            }
            -s
        } else {
            s
        };
        if total > i64::MAX - m {
            proof {
                lemma_magnitude_prefix(rows@, i + 1);
            }
            return false;
        }
        total = total + m;
        i += 1;
    }
    proof {
        assert(rows@.subrange(0, rows@.len() as int) =~= rows@);
    }
    true
}

fn days_distinct(days: &Vec<i64>) -> (r: bool)
    ensures
        r == distinct_days(days@),
{
    let n = days.len();
    let mut j: usize = 0;
    while j < n
        invariant
            n == days@.len(),
            j <= n,
            forall|a: int, b: int| 0 <= a < b < j ==> days@[a] != days@[b],
        decreases n - j,
    {
        let mut i: usize = 0;
        while i < j
            invariant
                n == days@.len(),
                i <= j < n,
                forall|a: int, b: int| 0 <= a < b < j ==> days@[a] != days@[b],
                forall|a: int| 0 <= a < i ==> days@[a] != days@[j as int],
            decreases j - i,
        {
            if days[i] == days[j] {
                return false;
            }
            i += 1;
        }
        j += 1;
    }
    true
}

fn rows_inside(rows: &Vec<RollupRow>, days: &Vec<i64>) -> (r: bool)
    ensures
        r == rows_within_days(rows@, days@),
{
    let mut i: usize = 0;
    while i < rows.len()
        invariant
            i <= rows@.len(),
            forall|k: int| 0 <= k < i ==> days@.contains((#[trigger] rows@[k]).date),
        decreases rows@.len() - i,
    {
        let d = rows[i].date;
        let mut j: usize = 0;
        let mut found = false;
        while j < days.len()
            invariant
                j <= days@.len(),
                found ==> days@.contains(d),
                !found ==> forall|k: int| 0 <= k < j ==> days@[k] != d,
            decreases days@.len() - j,
        {
            if days[j] == d {
                found = true;
            }
            j += 1;
        }
        if !found {
            return false;
        }
        i += 1;
    }
    true
}

fn one_row_each(rows: &Vec<RollupRow>) -> (r: bool)
    ensures
        r == one_row_per_key_and_day(rows@),
{
    let n = rows.len();
    let mut j: usize = 0;
    while j < n
        invariant
            n == rows@.len(),
            j <= n,
            forall|a: int, b: int| 0 <= a < b < j ==> !((#[trigger] rows@[a]).key@ == (#[trigger] rows@[b]).key@
                && rows@[a].date == rows@[b].date),
        decreases n - j,
    {
        let kj = chars_of(rows[j].key.as_str());
        let mut i: usize = 0;
        while i < j
            invariant
                n == rows@.len(),
                i <= j < n,
                kj@ == rows@[j as int].key@,
                forall|a: int, b: int| 0 <= a < b < j ==> !((#[trigger] rows@[a]).key@ == (#[trigger] rows@[b]).key@
                    && rows@[a].date == rows@[b].date),
                forall|a: int| 0 <= a < i ==> !((#[trigger] rows@[a]).key@ == rows@[j as int].key@ && rows@[a].date
                    == rows@[j as int].date),
            decreases j - i,
        {
            if rows[i].date == rows[j].date && seq_equal(&chars_of(rows[i].key.as_str()), &kj) {
                return false;
            }
            i += 1;
        }
        j += 1;
    }
    true
}

/// The rows can be charted over `days` with their daily seconds adding up to
/// their totals: the days are distinct, every row lies on one of them, no
/// application has two rows for a day, and all sums fit in `i64`.
pub open spec fn chartable(days: Seq<i64>, raw: Seq<RollupRow>, active: Seq<RollupRow>) -> bool {
    &&& seconds_magnitude(raw) <= i64::MAX
    &&& seconds_magnitude(active) <= i64::MAX
    &&& distinct_days(days)
    &&& rows_within_days(raw, days)
    &&& rows_within_days(active, days)
    &&& one_row_per_key_and_day(raw)
    &&& one_row_per_key_and_day(active)
}

/// The trend chart of the usage rows read for a period: `None` unless the rows
/// are chartable over the period's days; then the chart of `app_usage_trend`, in
/// which each series' seconds per day add up to its totals.
pub fn period_usage_trend(days: &Vec<i64>, raw: &Vec<RollupRow>, active: &Vec<RollupRow>, limit: usize) -> (r: Option<
    Vec<AppUsageTrendSeries>,
>)
    ensures
        r is Some <==> chartable(days@, raw@, active@),
        r matches Some(v) ==> {
            &&& exists|ks: Seq<Seq<char>>| #![trigger ranked_keys(raw@, active@, ks)]
                ranked_keys(raw@, active@, ks) && v@.len() == if ks.len() < series_limit(limit as int) {
                    ks.len() as int
                } else {
                    series_limit(limit as int)
                } && forall|i: int| 0 <= i < v@.len() ==> series_matches(#[trigger] v@[i], ks[i], raw@, active@, days@)
            &&& forall|i: int| 0 <= i < v@.len() ==> sum_seconds((#[trigger] v@[i]).daily_seconds@) == v@[i].total_seconds
            &&& forall|i: int| 0 <= i < v@.len() ==> sum_seconds((#[trigger] v@[i]).active_daily_seconds@)
                == v@[i].active_total_seconds
        },
{
    if !(magnitude_fits(raw) && magnitude_fits(active) && days_distinct(days) && rows_inside(raw, days)
        && rows_inside(active, days) && one_row_each(raw) && one_row_each(active)) {
        return None;
    }
    let v = app_usage_trend(days, raw, active, limit);
    proof {
        let ks = choose|ks: Seq<Seq<char>>| #![trigger ranked_keys(raw@, active@, ks)]
            ranked_keys(raw@, active@, ks) && v@.len() == if ks.len() < series_limit(limit as int) {
                ks.len() as int
            } else {
                series_limit(limit as int)
            } && forall|i: int| 0 <= i < v@.len() ==> series_matches(#[trigger] v@[i], ks[i], raw@, active@, days@);
        assert forall|i: int| 0 <= i < v@.len() implies sum_seconds((#[trigger] v@[i]).daily_seconds@)
            == v@[i].total_seconds && sum_seconds(v@[i].active_daily_seconds@) == v@[i].active_total_seconds by {
            law_trend_days_add_up(v@[i], ks[i], raw@, active@, days@);
        }
    }
    Some(v)
}

} // verus!
